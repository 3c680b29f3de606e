//! Byte encodings shared by the index and the store: little-endian integers,
//! and the calls into `bytevec` and `bincode` that produce and read them.

use vstd::prelude::*;
use bytevec::errors::ByteVecError;
use bytevec::{ByteDecodable, ByteEncodable};

verus! {

/// The error type of `bytevec`.
#[verifier::external_type_specification]
#[verifier::external_body]
pub struct ExByteVecError(ByteVecError);

/// The error kind of `bincode` (its `Error` is a box of it).
#[verifier::external_type_specification]
#[verifier::external_body]
pub struct ExBincodeErrorKind(bincode::ErrorKind);

/// One slot of an in-RAM index block in plain form: either empty, or the
/// physical address `(container, offset)` with an optional attribute
/// `(key type, sequence number)`.
pub type CellTuple = Option<((u32, u32), Option<(u8, u64)>)>;

/// The 4 little-endian bytes of `x`.
pub open spec fn le_u32(x: u32) -> Seq<u8> {
    seq![x as u8, (x >> 8u32) as u8, (x >> 16u32) as u8, (x >> 24u32) as u8]
}

/// The 8 little-endian bytes of `x`.
pub open spec fn le_u64(x: u64) -> Seq<u8> {
    seq![
        x as u8,
        (x >> 8u64) as u8,
        (x >> 16u64) as u8,
        (x >> 24u64) as u8,
        (x >> 32u64) as u8,
        (x >> 40u64) as u8,
        (x >> 48u64) as u8,
        (x >> 56u64) as u8,
    ]
}

/// The integer whose little-endian bytes are the first 8 of `s`.
pub open spec fn le_value_u64(s: Seq<u8>) -> u64 {
    (s[0] as u64) | ((s[1] as u64) << 8u64) | ((s[2] as u64) << 16u64) | ((s[3] as u64) << 24u64)
        | ((s[4] as u64) << 32u64) | ((s[5] as u64) << 40u64) | ((s[6] as u64) << 48u64) | ((
    s[7] as u64) << 56u64)
}

proof fn lemma_bytes_of_u64(x: u64, y: u64)
    requires
        x as u8 == y as u8,
        (x >> 8u64) as u8 == (y >> 8u64) as u8,
        (x >> 16u64) as u8 == (y >> 16u64) as u8,
        (x >> 24u64) as u8 == (y >> 24u64) as u8,
        (x >> 32u64) as u8 == (y >> 32u64) as u8,
        (x >> 40u64) as u8 == (y >> 40u64) as u8,
        (x >> 48u64) as u8 == (y >> 48u64) as u8,
        (x >> 56u64) as u8 == (y >> 56u64) as u8,
    ensures
        x == y,
{
    assert(x == y) by (bit_vector)
        requires
            x as u8 == y as u8,
            (x >> 8u64) as u8 == (y >> 8u64) as u8,
            (x >> 16u64) as u8 == (y >> 16u64) as u8,
            (x >> 24u64) as u8 == (y >> 24u64) as u8,
            (x >> 32u64) as u8 == (y >> 32u64) as u8,
            (x >> 40u64) as u8 == (y >> 40u64) as u8,
            (x >> 48u64) as u8 == (y >> 48u64) as u8,
            (x >> 56u64) as u8 == (y >> 56u64) as u8,
    ;
}

/// The bytes of a `u32` are its base-256 digits, least significant first.
pub proof fn lemma_le_u32_digits(x: u32)
    ensures
        le_u32(x).len() == 4,
        le_u32(x)[0] == x % 0x100,
        le_u32(x)[1] == (x / 0x100) % 0x100,
        le_u32(x)[2] == (x / 0x1_0000) % 0x100,
        le_u32(x)[3] == x / 0x100_0000,
{
    assert(x as u8 == x % 0x100u32) by (bit_vector);
    assert((x >> 8u32) as u8 == (x / 0x100u32) % 0x100u32) by (bit_vector);
    assert((x >> 16u32) as u8 == (x / 0x1_0000u32) % 0x100u32) by (bit_vector);
    assert((x >> 24u32) as u8 == x / 0x100_0000u32) by (bit_vector);
}

/// The bytes of a `u64` are its base-256 digits, least significant first.
pub proof fn lemma_le_u64_digits(x: u64)
    ensures
        le_u64(x).len() == 8,
        le_u64(x)[0] == x % 0x100,
        le_u64(x)[1] == (x / 0x100) % 0x100,
        le_u64(x)[2] == (x / 0x1_0000) % 0x100,
        le_u64(x)[3] == (x / 0x100_0000) % 0x100,
        le_u64(x)[4] == (x / 0x1_0000_0000) % 0x100,
        le_u64(x)[5] == (x / 0x100_0000_0000) % 0x100,
        le_u64(x)[6] == (x / 0x1_0000_0000_0000) % 0x100,
        le_u64(x)[7] == x / 0x100_0000_0000_0000,
{
    assert(x as u8 == x % 0x100u64) by (bit_vector);
    assert((x >> 8u64) as u8 == (x / 0x100u64) % 0x100u64) by (bit_vector);
    assert((x >> 16u64) as u8 == (x / 0x1_0000u64) % 0x100u64) by (bit_vector);
    assert((x >> 24u64) as u8 == (x / 0x100_0000u64) % 0x100u64) by (bit_vector);
    assert((x >> 32u64) as u8 == (x / 0x1_0000_0000u64) % 0x100u64) by (bit_vector);
    assert((x >> 40u64) as u8 == (x / 0x100_0000_0000u64) % 0x100u64) by (bit_vector);
    assert((x >> 48u64) as u8 == (x / 0x1_0000_0000_0000u64) % 0x100u64) by (bit_vector);
    assert((x >> 56u64) as u8 == x / 0x100_0000_0000_0000u64) by (bit_vector);
}

/// Distinct integers have distinct little-endian bytes.
pub proof fn lemma_le_u64_injective(x: u64, y: u64)
    ensures
        le_u64(x) == le_u64(y) ==> x == y,
{
    if le_u64(x) == le_u64(y) {
        assert(le_u64(x)[0] == le_u64(y)[0]);
        assert(le_u64(x)[1] == le_u64(y)[1]);
        assert(le_u64(x)[2] == le_u64(y)[2]);
        assert(le_u64(x)[3] == le_u64(y)[3]);
        assert(le_u64(x)[4] == le_u64(y)[4]);
        assert(le_u64(x)[5] == le_u64(y)[5]);
        assert(le_u64(x)[6] == le_u64(y)[6]);
        assert(le_u64(x)[7] == le_u64(y)[7]);
        lemma_bytes_of_u64(x, y);
    }
}

/// Distinct integers have distinct little-endian bytes.
pub proof fn lemma_le_u32_injective(x: u32, y: u32)
    ensures
        le_u32(x) == le_u32(y) ==> x == y,
{
    if le_u32(x) == le_u32(y) {
        assert(le_u32(x)[0] == le_u32(y)[0]);
        assert(le_u32(x)[1] == le_u32(y)[1]);
        assert(le_u32(x)[2] == le_u32(y)[2]);
        assert(le_u32(x)[3] == le_u32(y)[3]);
        assert(x == y) by (bit_vector)
            requires
                x as u8 == y as u8,
                (x >> 8u32) as u8 == (y >> 8u32) as u8,
                (x >> 16u32) as u8 == (y >> 16u32) as u8,
                (x >> 24u32) as u8 == (y >> 24u32) as u8,
        ;
    }
}

/// Reading back the bytes of `x` gives `x`.
pub proof fn lemma_le_value_of_le_u64(x: u64)
    ensures
        le_value_u64(le_u64(x)) == x,
{
    let s = le_u64(x);
    let (b0, b1, b2, b3, b4, b5, b6, b7) = (s[0], s[1], s[2], s[3], s[4], s[5], s[6], s[7]);
    assert(b0 == x as u8 && b1 == (x >> 8u64) as u8 && b2 == (x >> 16u64) as u8 && b3 == (x
        >> 24u64) as u8 && b4 == (x >> 32u64) as u8 && b5 == (x >> 40u64) as u8 && b6 == (x
        >> 48u64) as u8 && b7 == (x >> 56u64) as u8);
    assert((b0 as u64) | ((b1 as u64) << 8u64) | ((b2 as u64) << 16u64) | ((b3 as u64) << 24u64)
        | ((b4 as u64) << 32u64) | ((b5 as u64) << 40u64) | ((b6 as u64) << 48u64) | ((
    b7 as u64) << 56u64) == x) by (bit_vector)
        requires
            b0 == x as u8,
            b1 == (x >> 8u64) as u8,
            b2 == (x >> 16u64) as u8,
            b3 == (x >> 24u64) as u8,
            b4 == (x >> 32u64) as u8,
            b5 == (x >> 40u64) as u8,
            b6 == (x >> 48u64) as u8,
            b7 == (x >> 56u64) as u8,
    ;
}

/// Eight bytes are the little-endian bytes of the value they spell.
pub proof fn lemma_le_u64_of_le_value(s: Seq<u8>)
    requires
        s.len() == 8,
    ensures
        le_u64(le_value_u64(s)) == s,
{
    let x = le_value_u64(s);
    let (b0, b1, b2, b3, b4, b5, b6, b7) = (s[0], s[1], s[2], s[3], s[4], s[5], s[6], s[7]);
    assert(x == (b0 as u64) | ((b1 as u64) << 8u64) | ((b2 as u64) << 16u64) | ((b3 as u64)
        << 24u64) | ((b4 as u64) << 32u64) | ((b5 as u64) << 40u64) | ((b6 as u64) << 48u64)
        | ((b7 as u64) << 56u64));
    assert(b0 == x as u8 && b1 == (x >> 8u64) as u8 && b2 == (x >> 16u64) as u8 && b3 == (x
        >> 24u64) as u8 && b4 == (x >> 32u64) as u8 && b5 == (x >> 40u64) as u8 && b6 == (x
        >> 48u64) as u8 && b7 == (x >> 56u64) as u8) by (bit_vector)
        requires
            x == (b0 as u64) | ((b1 as u64) << 8u64) | ((b2 as u64) << 16u64) | ((b3 as u64)
                << 24u64) | ((b4 as u64) << 32u64) | ((b5 as u64) << 40u64) | ((b6 as u64)
                << 48u64) | ((b7 as u64) << 56u64),
    ;
    assert(le_u64(x) =~= s);
}

/// Whether `p` is a prefix of `s`.
pub open spec fn starts_with(s: Seq<u8>, p: Seq<u8>) -> bool {
    p.len() <= s.len() && s.subrange(0, p.len() as int) == p
}

/// The bincode bytes (fixed-width integers, little endian) of an optional attribute.
pub open spec fn attr_bytes(a: Option<(u8, u64)>) -> Seq<u8> {
    match a {
        None => seq![0u8],
        Some((t, n)) => seq![1u8, t] + le_u64(n),
    }
}

/// The bincode bytes of one slot.
pub open spec fn cell_bytes(c: CellTuple) -> Seq<u8> {
    match c {
        None => seq![0u8],
        Some(((cid, off), a)) => seq![1u8] + le_u32(cid) + le_u32(off) + attr_bytes(a),
    }
}

/// The bincode bytes of a run of slots, one after the other.
pub open spec fn cells_bytes(cs: Seq<CellTuple>) -> Seq<u8>
    decreases cs.len(),
{
    if cs.len() == 0 {
        Seq::empty()
    } else {
        cell_bytes(cs[0]) + cells_bytes(cs.drop_first())
    }
}

/// The bincode bytes of a vector of slots: its length as 8 little-endian
/// bytes, then the slots.
pub open spec fn cell_vec_bytes(cs: Seq<CellTuple>) -> Seq<u8> {
    le_u64(cs.len() as u64) + cells_bytes(cs)
}

proof fn lemma_prefix_shift(s: Seq<u8>, p: Seq<u8>, q: Seq<u8>)
    requires
        starts_with(s, p + q),
    ensures
        starts_with(s, p),
        starts_with(s.skip(p.len() as int), q),
{
    let pq = p + q;
    assert forall|i: int| 0 <= i < pq.len() implies s[i] == pq[i] by {
        assert(s.subrange(0, pq.len() as int)[i] == pq[i]);
    }
    assert(s.subrange(0, p.len() as int) =~= p) by {
        assert forall|i: int| 0 <= i < p.len() implies s[i] == p[i] by {
            assert(pq[i] == p[i]);
        }
    }
    assert(s.skip(p.len() as int).subrange(0, q.len() as int) =~= q) by {
        assert forall|i: int| 0 <= i < q.len() implies s[p.len() + i] == q[i] by {
            assert(pq[p.len() + i] == q[i]);
        }
    }
}

proof fn lemma_le_u32_prefix(s: Seq<u8>, x: u32, y: u32)
    requires
        starts_with(s, le_u32(x)),
        starts_with(s, le_u32(y)),
    ensures
        x == y,
{
    assert(le_u32(x) =~= le_u32(y));
    lemma_le_u32_injective(x, y);
}

proof fn lemma_le_u64_prefix(s: Seq<u8>, x: u64, y: u64)
    requires
        starts_with(s, le_u64(x)),
        starts_with(s, le_u64(y)),
    ensures
        x == y,
{
    assert(le_u64(x) =~= le_u64(y));
    lemma_le_u64_injective(x, y);
}

proof fn lemma_attr_prefix(s: Seq<u8>, a: Option<(u8, u64)>, b: Option<(u8, u64)>)
    requires
        starts_with(s, attr_bytes(a)),
        starts_with(s, attr_bytes(b)),
    ensures
        a == b,
{
    assert(attr_bytes(a)[0] == s[0]);
    assert(attr_bytes(b)[0] == s[0]);
    match (a, b) {
        (Some((t1, n1)), Some((t2, n2))) => {
            assert(attr_bytes(a)[1] == s[1]);
            assert(attr_bytes(b)[1] == s[1]);
            lemma_prefix_shift(s, seq![1u8, t1], le_u64(n1));
            lemma_prefix_shift(s, seq![1u8, t2], le_u64(n2));
            lemma_le_u64_prefix(s.skip(2), n1, n2);
        },
        _ => {},
    }
}

/// A slot's bytes are read back unambiguously from the start of a buffer.
proof fn lemma_cell_prefix(s: Seq<u8>, a: CellTuple, b: CellTuple)
    requires
        starts_with(s, cell_bytes(a)),
        starts_with(s, cell_bytes(b)),
    ensures
        a == b,
{
    assert(cell_bytes(a)[0] == s[0]);
    assert(cell_bytes(b)[0] == s[0]);
    match (a, b) {
        (Some(((c1, o1), a1)), Some(((c2, o2), a2))) => {
            let h1 = seq![1u8];
            lemma_prefix_shift(s, h1 + le_u32(c1) + le_u32(o1), attr_bytes(a1));
            lemma_prefix_shift(s, h1 + le_u32(c2) + le_u32(o2), attr_bytes(a2));
            lemma_prefix_shift(s, h1 + le_u32(c1), le_u32(o1));
            lemma_prefix_shift(s, h1 + le_u32(c2), le_u32(o2));
            lemma_prefix_shift(s, h1, le_u32(c1));
            lemma_prefix_shift(s, h1, le_u32(c2));
            lemma_le_u32_prefix(s.skip(1), c1, c2);
            lemma_le_u32_prefix(s.skip(5), o1, o2);
            lemma_attr_prefix(s.skip(9), a1, a2);
        },
        _ => {},
    }
}

proof fn lemma_cells_prefix(s: Seq<u8>, xs: Seq<CellTuple>, ys: Seq<CellTuple>)
    requires
        xs.len() == ys.len(),
        starts_with(s, cells_bytes(xs)),
        starts_with(s, cells_bytes(ys)),
    ensures
        xs == ys,
    decreases xs.len(),
{
    if xs.len() > 0 {
        lemma_prefix_shift(s, cell_bytes(xs[0]), cells_bytes(xs.drop_first()));
        lemma_prefix_shift(s, cell_bytes(ys[0]), cells_bytes(ys.drop_first()));
        lemma_cell_prefix(s, xs[0], ys[0]);
        lemma_cells_prefix(
            s.skip(cell_bytes(xs[0]).len() as int),
            xs.drop_first(),
            ys.drop_first(),
        );
        assert(xs =~= ys) by {
            assert forall|i: int| 0 <= i < xs.len() implies xs[i] == ys[i] by {
                if i > 0 {
                    assert(xs[i] == xs.drop_first()[i - 1]);
                    assert(ys[i] == ys.drop_first()[i - 1]);
                }
            }
        }
    } else {
        assert(xs =~= ys);
    }
}

/// The run of slots is at least as long, in bytes, as it has slots.
proof fn lemma_cells_bytes_len(cs: Seq<CellTuple>)
    ensures
        cells_bytes(cs).len() >= cs.len(),
    decreases cs.len(),
{
    if cs.len() > 0 {
        lemma_cells_bytes_len(cs.drop_first());
    }
}

/// At most one vector of slots has its bincode bytes at the start of a buffer.
pub proof fn lemma_cell_vec_prefix_unique(s: Seq<u8>, xs: Seq<CellTuple>, ys: Seq<CellTuple>)
    requires
        s.len() <= u64::MAX,
        starts_with(s, cell_vec_bytes(xs)),
        starts_with(s, cell_vec_bytes(ys)),
    ensures
        xs == ys,
{
    lemma_cells_bytes_len(xs);
    lemma_cells_bytes_len(ys);
    lemma_prefix_shift(s, le_u64(xs.len() as u64), cells_bytes(xs));
    lemma_prefix_shift(s, le_u64(ys.len() as u64), cells_bytes(ys));
    lemma_le_u64_prefix(s, xs.len() as u64, ys.len() as u64);
    lemma_cells_prefix(s.skip(8), xs, ys);
}

/// `<u64 as bytevec::ByteEncodable>::encode`. bytevec documents that integers
/// are converted to little endian; for `u64` the result is the 8 bytes of
/// `x.to_le()` and is always `Ok`.
#[verifier::external_body]
pub(crate) fn bytevec_encode_u64(x: u64) -> (r: Result<Vec<u8>, ByteVecError>)
    ensures
        r is Ok,
        r matches Ok(b) ==> b@ == le_u64(x),
{
    x.encode::<u64>()
}

/// `<u64 as bytevec::ByteDecodable>::decode`: `Ok` exactly when the buffer
/// holds 8 bytes, and then the integer whose little-endian bytes they are.
#[verifier::external_body]
pub(crate) fn bytevec_decode_u64(bytes: &[u8]) -> (r: Result<u64, ByteVecError>)
    ensures
        r is Ok <==> bytes@.len() == 8,
        r matches Ok(v) ==> le_u64(v) == bytes@,
{
    u64::decode::<u64>(bytes)
}

/// `bincode::serialize` of a `u64`: bincode's free functions use fixed-width
/// little-endian integers, so the result is the 8 little-endian bytes; it
/// never fails (no size limit, writing into a `Vec`).
#[verifier::external_body]
pub(crate) fn bincode_serialize_u64(x: &u64) -> (r: Result<Vec<u8>, Box<bincode::ErrorKind>>)
    ensures
        r is Ok,
        r matches Ok(b) ==> b@ == le_u64(*x),
{
    bincode::serialize(x)
}

/// `bincode::serialize` of a vector of slots: the length as a little-endian
/// `u64`, then each slot (an option is a tag byte 0 or 1 followed by the
/// value; a tuple is its fields in order; integers are fixed-width little
/// endian). A `Vec` has a known length and there is no size limit, so it
/// never fails.
#[verifier::external_body]
pub(crate) fn bincode_serialize_cells(cells: &Vec<CellTuple>) -> (r: Result<
    Vec<u8>,
    Box<bincode::ErrorKind>,
>)
    ensures
        r is Ok,
        r matches Ok(b) ==> b@ == cell_vec_bytes(cells@),
{
    bincode::serialize(cells)
}

/// `bincode::deserialize` of a vector of slots. Trailing bytes are allowed by
/// bincode's free functions: it succeeds exactly when the buffer starts with
/// the bytes of some vector of slots (an option tag other than 0 or 1, or a
/// buffer cut short, is an error), and then returns that vector.
#[verifier::external_body]
pub(crate) fn bincode_deserialize_cells(bytes: &[u8]) -> (r: Result<
    Vec<CellTuple>,
    Box<bincode::ErrorKind>,
>)
    ensures
        r matches Ok(v) ==> starts_with(bytes@, cell_vec_bytes(v@)),
        (exists|c: Seq<CellTuple>| starts_with(bytes@, cell_vec_bytes(c))) ==> r is Ok,
{
    bincode::deserialize(bytes)
}

/// The text of a bincode error, as its `Display` writes it.
#[verifier::external_body]
pub(crate) fn bincode_error_text(e: &Box<bincode::ErrorKind>) -> String {
    format!("{}", e)
}

} // verus!
