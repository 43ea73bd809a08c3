//! Growing byte buffers that are kept on four-byte boundaries.

use crate::halfword::be16;
use vstd::prelude::*;

verus! {

/// Every block of the payload starts and ends on a multiple of this.
pub const ALIGNMENT: usize = 4;

/// Whether `n` bytes end on a four-byte boundary.
pub open spec fn aligned(n: nat) -> bool {
    n % 4 == 0
}

/// How many bytes take a length of `n` to the next four-byte boundary.
pub open spec fn pad_len(n: nat) -> nat {
    ((4 - n % 4) % 4) as nat
}

/// `n` zero bytes.
pub open spec fn zeros(n: nat) -> Seq<u8> {
    Seq::new(n, |i: int| 0u8)
}

/// `s` followed by as few zero bytes as bring it to a four-byte boundary.
pub open spec fn padded(s: Seq<u8>) -> Seq<u8> {
    s + zeros(pad_len(s.len()))
}

/// The file indices of a trailer as bytes, each index most significant byte first.
pub open spec fn be16s(ids: Seq<u16>) -> Seq<u8> {
    Seq::new(
        2 * ids.len(),
        |i: int|
            if i % 2 == 0 {
                be16(ids[i / 2])[0]
            } else {
                be16(ids[i / 2])[1]
            },
    )
}

/// Padding reaches a boundary and adds fewer than four bytes, all zero.
pub proof fn lemma_padded_is_aligned(s: Seq<u8>)
    ensures
        aligned(padded(s).len()),
        s.len() <= padded(s).len() < s.len() + 4,
        padded(s).subrange(0, s.len() as int) == s,
        forall|i: int| s.len() <= i < padded(s).len() ==> padded(s)[i] == 0,
{
    assert(padded(s).subrange(0, s.len() as int) =~= s);
}

/// Padding changes nothing in a buffer that already ends on a boundary, so
/// padding twice is padding once.
pub proof fn lemma_padding_idempotent(s: Seq<u8>)
    ensures
        aligned(s.len()) ==> padded(s) == s,
        padded(padded(s)) == padded(s),
{
    if aligned(s.len()) {
        assert(padded(s) =~= s);
    }
    lemma_padded_is_aligned(s);
    assert(padded(padded(s)) =~= padded(s));
}

/// Appending to a buffer that ends on a boundary and padding the whole is
/// appending what was padded on its own.
pub proof fn lemma_padded_append(a: Seq<u8>, b: Seq<u8>)
    requires
        aligned(a.len()),
    ensures
        padded(a + b) == a + padded(b),
{
    assert(pad_len((a + b).len()) == pad_len(b.len()));
    assert(padded(a + b) =~= a + padded(b));
}

/// An empty list of file indices leaves no trailer behind a block.
pub proof fn lemma_empty_trailer(payload: Seq<u8>)
    requires
        aligned(payload.len()),
    ensures
        be16s(Seq::<u16>::empty()) == Seq::<u8>::empty(),
        padded(payload + be16s(Seq::<u16>::empty())) == payload,
{
    assert(be16s(Seq::<u16>::empty()) =~= Seq::<u8>::empty());
    assert(payload + Seq::<u8>::empty() =~= payload);
    lemma_padding_idempotent(payload);
}

/// The bytes of a list with one more index are the bytes of the list and then
/// the two bytes of that index.
pub proof fn lemma_be16s_push(ids: Seq<u16>, id: u16)
    ensures
        be16s(ids.push(id)) == be16s(ids) + be16(id),
{
    assert(be16s(ids.push(id)) =~= be16s(ids) + be16(id));
}

/// Appends zero bytes until the buffer ends on a four-byte boundary.
pub fn align_buffer(v: &mut Vec<u8>)
    ensures
        final(v)@ == padded(old(v)@),
{
    let ghost start = v@;
    assert(v@ =~= start + zeros(0));
    while v.len() % ALIGNMENT != 0
        invariant
            v@.len() >= start.len(),
            v@.len() - start.len() <= pad_len(start.len()),
            v@ == start + zeros((v@.len() - start.len()) as nat),
        decreases pad_len(start.len()) - (v@.len() - start.len()),
    {
        v.push(0);
        assert(v@ =~= start + zeros((v@.len() - start.len()) as nat));
    }
}

/// Appends one file's bytes and pads the buffer to a four-byte boundary.
pub fn add_file_data(v: &mut Vec<u8>, data: &[u8])
    ensures
        final(v)@ == padded(old(v)@ + data@),
{
    v.extend_from_slice(data);
    align_buffer(v);
}

/// Appends a trailer of file indices, each as two bytes with the most
/// significant first, and pads the buffer to a four-byte boundary.
pub fn add_externs(v: &mut Vec<u8>, externs: &[u16])
    ensures
        final(v)@ == padded(old(v)@ + be16s(externs@)),
{
    let ghost start = v@;
    let mut i: usize = 0;
    assert(v@ =~= start + be16s(externs@.take(0)));
    while i < externs.len()
        invariant
            i <= externs.len(),
            v@ == start + be16s(externs@.take(i as int)),
        decreases externs.len() - i,
    {
        let id: u16 = externs[i];
        v.push((id / 0x100) as u8);
        v.push((id % 0x100) as u8);
        proof {
            assert(externs@.take(i + 1) =~= externs@.take(i as int).push(id));
            lemma_be16s_push(externs@.take(i as int), id);
            assert(v@ =~= start + be16s(externs@.take(i as int)) + be16(id));
        }
        i += 1;
    }
    assert(externs@.take(i as int) =~= externs@);
    align_buffer(v);
}

} // verus!
