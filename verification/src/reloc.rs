//! Rewriting relocation sites into chains that the loader can walk.
//!
//! Each site of a chain is overwritten by a 32-bit word, most significant
//! byte first: the upper half says where the next site of the chain is, in
//! words, or `0xFFFF` at the end; the lower half is the value the site stands
//! for, in words.

use crate::error::{changed_to, outcome, Failure, LinkError};
use crate::halfword::{be32, opt_shorten, opt_shorten_spec, shorten, shorten_spec, widen};
use vstd::prelude::*;

verus! {

/// The word that replaces a site: where the chain goes on, then the value.
pub open spec fn reloc_word(next: u16, value: u16) -> u32 {
    (next as int * 0x1_0000 + value as int) as u32
}

/// The word for a site whose chain goes on at byte `next`, or ends, and
/// which stands for `value`. The way on is reduced first, then the value.
pub open spec fn site_word(value: u32, next: Option<u64>) -> Result<u32, Failure> {
    match opt_shorten_spec(next) {
        Err(e) => Err(e),
        Ok(n) => match shorten_spec(value as u64) {
            Err(e) => Err(e),
            Ok(v) => Ok(reloc_word(n, v)),
        },
    }
}

/// `buf` with the four bytes at `at` replaced by `word`.
pub open spec fn patch(buf: Seq<u8>, at: int, word: u32) -> Seq<u8> {
    buf.subrange(0, at) + be32(word) + buf.subrange(at + 4, buf.len() as int)
}

/// `buf` after one site is rewritten, or why it cannot be.
pub open spec fn rewrite_site(buf: Seq<u8>, site: int, value: u32, next: Option<u64>) -> Result<
    Seq<u8>,
    Failure,
> {
    if site + 4 > buf.len() {
        Err(Failure::OutOfBounds)
    } else {
        match site_word(value, next) {
            Err(e) => Err(e),
            Ok(word) => Ok(patch(buf, site, word)),
        }
    }
}

/// Where the chain goes on after its element `i`.
pub open spec fn next_site(relocs: Seq<(usize, u32)>, i: int) -> Option<u64> {
    if i + 1 < relocs.len() {
        Some(relocs[i + 1].0 as u64)
    } else {
        None
    }
}

/// `buf` after the sites from element `from` on are rewritten in order, with
/// the failure that stopped the rewriting, if one did. What was rewritten
/// before a failure stays rewritten.
pub open spec fn relocated(buf: Seq<u8>, relocs: Seq<(usize, u32)>, from: int) -> (
    Seq<u8>,
    Option<Failure>,
)
    decreases relocs.len() - from,
{
    if from < 0 || from >= relocs.len() {
        (buf, None)
    } else {
        match rewrite_site(buf, relocs[from].0 as int, relocs[from].1, next_site(relocs, from)) {
            Err(e) => (buf, Some(e)),
            Ok(b) => relocated(b, relocs, from + 1),
        }
    }
}

/// Rewriting keeps the length of the buffer.
pub proof fn lemma_relocated_len(buf: Seq<u8>, relocs: Seq<(usize, u32)>, from: int)
    ensures
        relocated(buf, relocs, from).0.len() == buf.len(),
    decreases relocs.len() - from,
{
    if 0 <= from < relocs.len() {
        match rewrite_site(buf, relocs[from].0 as int, relocs[from].1, next_site(relocs, from)) {
            Err(_) => {},
            Ok(b) => {
                lemma_relocated_len(b, relocs, from + 1);
            },
        }
    }
}

/// Where rewriting succeeds, every site lay within the buffer and every
/// value was a multiple of four that fits sixteen bits in words; so was
/// every site but the first of the chain.
pub proof fn lemma_relocated_ok(buf: Seq<u8>, relocs: Seq<(usize, u32)>, from: int)
    requires
        0 <= from,
        relocated(buf, relocs, from).1 is None,
    ensures
        forall|i: int|
            from <= i < relocs.len() ==> (#[trigger] relocs[i]).0 + 4 <= buf.len() && shorten_spec(
                relocs[i].1 as u64,
            ) is Ok,
        forall|i: int|
            from < i < relocs.len() ==> shorten_spec((#[trigger] relocs[i]).0 as u64) is Ok,
    decreases relocs.len() - from,
{
    if from < relocs.len() {
        let b = rewrite_site(buf, relocs[from].0 as int, relocs[from].1, next_site(relocs, from))->Ok_0;
        lemma_relocated_ok(b, relocs, from + 1);
        assert forall|i: int| from < i < relocs.len() implies shorten_spec(
            (#[trigger] relocs[i]).0 as u64,
        ) is Ok by {
            if i == from + 1 {
                assert(opt_shorten_spec(next_site(relocs, from)) is Ok);
            }
        }
    }
}

/// Whether no two sites of a chain share a byte.
pub open spec fn sites_apart(relocs: Seq<(usize, u32)>) -> bool {
    forall|i: int, j: int|
        0 <= i < j < relocs.len() ==> (#[trigger] relocs[i]).0 + 4 <= (#[trigger] relocs[j]).0
            || relocs[j].0 + 4 <= relocs[i].0
}

/// Whether byte `k` belongs to none of the sites from element `from` on.
pub open spec fn off_sites(relocs: Seq<(usize, u32)>, from: int, k: int) -> bool {
    forall|i: int|
        from <= i < relocs.len() ==> k < (#[trigger] relocs[i]).0 || k >= relocs[i].0 + 4
}

/// The four bytes that site `i` of a chain holds once the chain is
/// rewritten.
pub open spec fn site_bytes(relocs: Seq<(usize, u32)>, i: int) -> Seq<u8> {
    be32(site_word(relocs[i].1, next_site(relocs, i))->Ok_0)
}

/// Where a chain whose sites share no byte is rewritten, every site holds
/// its word in the end: where the chain goes on, or `0xFFFF` at the last
/// site, and the value of the site, both in words. The bytes that belong to
/// no site are as they were.
pub proof fn lemma_chain_written(buf: Seq<u8>, relocs: Seq<(usize, u32)>, from: int)
    requires
        0 <= from,
        sites_apart(relocs),
        relocated(buf, relocs, from).1 is None,
    ensures
        forall|i: int|
            from <= i < relocs.len() ==> relocated(buf, relocs, from).0.subrange(
                (#[trigger] relocs[i]).0 as int,
                relocs[i].0 + 4,
            ) == site_bytes(relocs, i),
        forall|k: int|
            0 <= k < buf.len() && #[trigger] off_sites(relocs, from, k) ==> relocated(
                buf,
                relocs,
                from,
            ).0[k] == buf[k],
    decreases relocs.len() - from,
{
    if from < relocs.len() {
        let site = relocs[from].0 as int;
        let word = site_word(relocs[from].1, next_site(relocs, from))->Ok_0;
        let b = patch(buf, site, word);
        let end = relocated(buf, relocs, from).0;
        lemma_chain_written(b, relocs, from + 1);
        lemma_relocated_len(b, relocs, from + 1);
        assert forall|k: int| site <= k < site + 4 implies #[trigger] off_sites(
            relocs,
            from + 1,
            k,
        ) by {
            assert forall|i: int| from + 1 <= i < relocs.len() implies k < (#[trigger] relocs[i]).0
                || k >= relocs[i].0 + 4 by {
                assert(relocs[from].0 + 4 <= relocs[i].0 || relocs[i].0 + 4 <= relocs[from].0);
            }
        }
        assert forall|i: int| from <= i < relocs.len() implies end.subrange(
            (#[trigger] relocs[i]).0 as int,
            relocs[i].0 + 4,
        ) == site_bytes(relocs, i) by {
            if i == from {
                assert forall|k: int| site <= k < site + 4 implies end[k] == b[k] by {
                    assert(off_sites(relocs, from + 1, k));
                }
                assert(end.subrange(site, site + 4) =~= be32(word));
            }
        }
        assert forall|k: int| 0 <= k < buf.len() && #[trigger] off_sites(
            relocs,
            from,
            k,
        ) implies end[k] == buf[k] by {
            assert(off_sites(relocs, from + 1, k));
            assert(k < relocs[from].0 || k >= relocs[from].0 + 4);
        }
    }
}

/// Overwrites the four bytes at `reloc.0` with the packed word for the value
/// `reloc.1` and the next site `next`, or fails and leaves the buffer as it was.
pub fn apply_relocation(buf: &mut Vec<u8>, reloc: (usize, u32), next: Option<u32>) -> (r: Result<
    (),
    LinkError,
>)
    ensures
        changed_to(
            r,
            old(buf)@,
            final(buf)@,
            rewrite_site(old(buf)@, reloc.0 as int, reloc.1, widen(next)),
        ),
{
    let loc = reloc.0;
    if loc > buf.len() || buf.len() - loc < 4 {
        return Err(LinkError::OutOfBounds);
    }
    let next = match opt_shorten(next) {
        Ok(h) => h,
        Err(e) => return Err(e),
    };
    let val = match shorten(reloc.1) {
        Ok(h) => h,
        Err(e) => return Err(e),
    };
    let word: u32 = (next as u32) << 16 | (val as u32);
    assert(word == reloc_word(next, val)) by (bit_vector)
        requires
            word == (next as u32) << 16 | (val as u32),
    ;
    buf.set(loc, (word / 0x100_0000) as u8);
    buf.set(loc + 1, ((word / 0x1_0000) % 0x100) as u8);
    buf.set(loc + 2, ((word / 0x100) % 0x100) as u8);
    buf.set(loc + 3, (word % 0x100) as u8);
    assert(buf@ =~= patch(old(buf)@, loc as int, word));
    Ok(())
}

/// Rewrites the sites of one chain in order. Each element is a site and the
/// value it stands for; each site is told where the next one is. Stops at
/// the first site that cannot be rewritten.
pub fn relocate(buf: &mut Vec<u8>, relocations: &[(usize, u32)]) -> (r: Result<(), LinkError>)
    ensures
        final(buf)@ == relocated(old(buf)@, relocations@, 0).0,
        outcome(r) == match relocated(old(buf)@, relocations@, 0).1 {
            None => Ok::<(), Failure>(()),
            Some(e) => Err(e),
        },
{
    let mut i: usize = 0;
    while i < relocations.len()
        invariant
            i <= relocations.len(),
            relocated(old(buf)@, relocations@, 0) == relocated(buf@, relocations@, i as int),
        decreases relocations.len() - i,
    {
        let reloc = relocations[i];
        let done = if i + 1 < relocations.len() {
            let site = relocations[i + 1].0;
            if site > u32::MAX as usize {
                if reloc.0 > buf.len() || buf.len() - reloc.0 < 4 {
                    Err(LinkError::OutOfBounds)
                } else if site % 4 != 0 {
                    Err(LinkError::Misaligned(site as u64))
                } else {
                    Err(LinkError::Overflow(site as u64))
                }
            } else {
                apply_relocation(buf, reloc, Some(site as u32))
            }
        } else {
            apply_relocation(buf, reloc, None)
        };
        match done {
            Ok(()) => {},
            Err(e) => {
                return Err(e);
            },
        }
        i += 1;
    }
    Ok(())
}

} // verus!
