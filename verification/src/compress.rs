//! Compressing a file's bytes with the `vpk0` codec.

use crate::error::{Failure, LinkError};
use crate::halfword::be32;
use crate::script::VpkSettings;
use vstd::prelude::*;

verus! {

#[verifier::external_type_specification]
#[verifier::external_body]
pub struct ExVpkError(vpk0::errors::VpkError);

/// How the codec writes the distance of a match.
#[derive(Debug, Copy, Clone, PartialEq, Eq, Structural)]
pub enum Sampling {
    /// The distance as one value.
    One,
    /// The distance split into a quotient and a remainder.
    Two,
}

/// The farthest that the codec looks back for a match, in bytes.
pub const WINDOW: usize = 0xFFFF;

/// The longest match that the codec looks for, in bytes.
pub const LONGEST_MATCH: usize = 0xFF;

/// The deepest Huffman tree whose codes the codec can hold.
pub const MAX_DEPTH: u32 = 31;

/// What is known of a Huffman tree's text after some of its characters.
/// The tree proper is the first number of the text or, if the text starts
/// with a parenthesis, what stands up to the parenthesis that closes it.
#[derive(Debug, Copy, Clone, PartialEq, Eq, Structural)]
pub struct TreeScan {
    /// How many parentheses of the tree proper are open; 32 for more.
    pub depth: u32,
    /// Whether the tree proper has ended.
    pub closed: bool,
    /// The number that is being read, if one is; 256 for any greater one.
    pub run: Option<u32>,
    /// The greatest number that ended within the tree proper.
    pub best: u32,
    /// The most parentheses of the tree proper that were open at once.
    pub deepest: u32,
}

/// The number that stands for the sampling in a script and in a compressed
/// file's header.
pub open spec fn sampling_number(sampling: Sampling) -> u8 {
    match sampling {
        Sampling::One => 0,
        Sampling::Two => 1,
    }
}

/// The four bytes that every compressed file starts with.
pub open spec fn magic() -> Seq<u8> {
    seq![0x76u8, 0x70, 0x6B, 0x30]
}

/// Whether `out` starts with the header of a compressed file of `len`
/// bytes: the magic bytes, the length before compression, and the sampling.
pub open spec fn has_header(out: Seq<u8>, len: nat, sampling: Sampling) -> bool {
    &&& out.len() >= 9
    &&& len <= u32::MAX
    &&& out.subrange(0, 4) == magic()
    &&& out.subrange(4, 8) == be32(len as u32)
    &&& out[8] == sampling_number(sampling)
}

/// Whether `out` is what the codec has given for `data` with the sampling
/// of the given number and the given trees. The codec may give other bytes
/// for the same on another run.
pub uninterp spec fn codec_output(
    data: Seq<u8>,
    sampling: u8,
    offsets: Option<Seq<char>>,
    lengths: Option<Seq<char>>,
    out: Seq<u8>,
) -> bool;

/// How many bits it takes to write `n`.
pub open spec fn bit_length(n: nat) -> nat
    decreases n,
{
    if n == 0 {
        0
    } else {
        1 + bit_length(n / 2)
    }
}

/// The most bits that a distance of a match can take in a file of `len`
/// bytes: a match lies less than `len` and at most 65535 bytes back.
pub open spec fn offset_bits(len: nat) -> nat {
    bit_length(
        if len < WINDOW {
            len
        } else {
            WINDOW as nat
        },
    )
}

/// The most bits that a length of a match can take in a file of `len`
/// bytes: a match is shorter than `len` and at most 255 bytes long.
pub open spec fn length_bits(len: nat) -> nat {
    bit_length(
        if len < LONGEST_MATCH {
            len
        } else {
            LONGEST_MATCH as nat
        },
    )
}

/// Whether a character may stand in a tree's text that is given to the
/// codec: any of ASCII. Of the others the codec rejects some, and aborts on
/// the blanks among them.
pub open spec fn tree_char(c: char) -> bool {
    (c as u32) < 0x80
}

/// What is known once a number that is being read has ended.
pub open spec fn end_run(s: TreeScan) -> TreeScan {
    match s.run {
        Some(v) => if s.closed {
            TreeScan { run: None, ..s }
        } else {
            TreeScan {
                run: None,
                best: if v > s.best {
                    v
                } else {
                    s.best
                },
                closed: s.depth == 0,
                ..s
            }
        },
        None => s,
    }
}

/// What is known after one more character.
pub open spec fn scan_step(s: TreeScan, c: char) -> TreeScan {
    if '0' <= c && c <= '9' {
        let digit = (c as u32 - 0x30) as u32;
        let sofar = match s.run {
            Some(v) => v,
            None => 0,
        };
        TreeScan {
            run: Some(
                if sofar * 10 + digit > 256 {
                    256
                } else {
                    (sofar * 10 + digit) as u32
                },
            ),
            ..s
        }
    } else {
        let e = end_run(s);
        if e.closed {
            e
        } else if c == '(' {
            let depth = if e.depth < 32 {
                (e.depth + 1) as u32
            } else {
                e.depth
            };
            TreeScan {
                depth,
                deepest: if depth > e.deepest {
                    depth
                } else {
                    e.deepest
                },
                ..e
            }
        } else if c == ')' {
            if e.depth <= 1 {
                TreeScan { depth: 0, closed: true, ..e }
            } else {
                TreeScan { depth: (e.depth - 1) as u32, ..e }
            }
        } else {
            e
        }
    }
}

/// What is known of a tree's text after its first `n` characters.
pub open spec fn tree_scan(text: Seq<char>, n: int) -> TreeScan
    decreases n,
{
    if n <= 0 {
        TreeScan { depth: 0, closed: false, run: None, best: 0, deepest: 0 }
    } else {
        scan_step(tree_scan(text, n - 1), text[n - 1])
    }
}

/// Whether a tree's text is one that the codec can be given for matches of
/// up to `bits` bits: all of it is ASCII, and the tree proper is at most 31
/// parentheses deep and holds a number of at least `bits`.
pub open spec fn tree_covers(text: Seq<char>, bits: nat) -> bool {
    &&& forall|i: int| 0 <= i < text.len() ==> tree_char(#[trigger] text[i])
    &&& end_run(tree_scan(text, text.len() as int)).deepest <= MAX_DEPTH
    &&& end_run(tree_scan(text, text.len() as int)).best >= bits
}

/// Whether a tree that may be absent can be given to the codec.
pub open spec fn tree_accepted(tree: Option<String>, bits: nat) -> bool {
    match tree {
        Some(text) => tree_covers(text@, bits),
        None => true,
    }
}

/// The tree for the distances that settings give, if they give one.
pub open spec fn given_offsets(settings: Option<VpkSettings>) -> Option<Seq<char>> {
    match settings {
        Some(VpkSettings { offsets: Some(text), .. }) => Some(text@),
        _ => None,
    }
}

/// The tree for the lengths that settings give, if they give one.
pub open spec fn given_lengths(settings: Option<VpkSettings>) -> Option<Seq<char>> {
    match settings {
        Some(VpkSettings { lengths: Some(text), .. }) => Some(text@),
        _ => None,
    }
}

/// The sampling that the settings of a file of `len` bytes ask for, with
/// one-sample as the default, or why the settings are refused: the method
/// is neither 0 nor 1, or a tree is given that the codec cannot be trusted
/// with for a file of that length.
pub open spec fn chosen_sampling(settings: Option<VpkSettings>, len: nat) -> Result<
    Sampling,
    Failure,
> {
    match settings {
        None => Ok(Sampling::One),
        Some(s) => if s.method matches Some(m) && m > 1 {
            Err(Failure::BadConfig)
        } else if !tree_accepted(s.offsets, offset_bits(len)) || !tree_accepted(
            s.lengths,
            length_bits(len),
        ) {
            Err(Failure::BadConfig)
        } else if s.method == Some(1u8) {
            Ok(Sampling::Two)
        } else {
            Ok(Sampling::One)
        },
    }
}

/// Runs the codec on `data`, with the Huffman trees that are given or else
/// with trees of the codec's own choice.
///
/// Trusted. Calls `vpk0::Encoder::for_bytes`, `method`, `optional_offsets`,
/// `optional_lengths` and `encode_to_vec`.
///
/// The codec aborts on three kinds of tree text, which `requires` leaves
/// out. Its scanner steps over blanks by their count where it needs their
/// bytes, so blanks of more than one byte are kept out, and with them all
/// that is not ASCII, which the scanner rejects where it is no blank. The
/// codec holds a code in 32 bits and gives up on a tree deeper than 31. And
/// it gives up where a match needs more bits than the greatest number of
/// the tree. It is run here with a window of 65535 bytes and matches of 3
/// to 255 bytes, and a match lies behind the cursor and within `data`: so no
/// distance needs more bits than [`offset_bits`] says and no length more
/// than [`length_bits`] says; the two values that two-sample makes of a
/// distance are no greater than the distance, or than 2, and a file with a
/// match has four bytes or more.
///
/// Where no tree is given, the codec builds one from tables whose order of
/// traversal can differ from run to run, so the contract does not name the
/// bytes that come back as a function of the arguments. It relates them to
/// the arguments by [`codec_output`], and it states what the codec writes
/// first in every case: the magic bytes `vpk0`, the length of `data` as 32
/// bits, and the number of the sampling.
#[verifier::external_body]
fn encode(data: &[u8], sampling: Sampling, offsets: Option<&str>, lengths: Option<&str>) -> (r:
    Result<Vec<u8>, vpk0::errors::VpkError>)
    requires
        offsets matches Some(text) ==> tree_covers(text@, offset_bits(data@.len())),
        lengths matches Some(text) ==> tree_covers(text@, length_bits(data@.len())),
    ensures
        r matches Ok(out) ==> has_header(out@, data@.len(), sampling) && codec_output(
            data@,
            sampling_number(sampling),
            match offsets {
                Some(text) => Some(text@),
                None => None,
            },
            match lengths {
                Some(text) => Some(text@),
                None => None,
            },
            out@,
        ),
{
    let method = match sampling {
        Sampling::One => vpk0::format::VpkMethod::OneSample,
        Sampling::Two => vpk0::format::VpkMethod::TwoSample,
    };
    vpk0::Encoder::for_bytes(data)
        .method(method)
        .optional_offsets(offsets)
        .optional_lengths(lengths)
        .encode_to_vec()
}

fn step(s: TreeScan, c: char) -> (r: TreeScan)
    requires
        s.depth <= 32,
        s.run matches Some(v) ==> v <= 256,
    ensures
        r == scan_step(s, c),
        r.depth <= 32,
        r.run matches Some(v) ==> v <= 256,
{
    if '0' <= c && c <= '9' {
        let digit = c as u32 - 0x30;
        let sofar = match s.run {
            Some(v) => v,
            None => 0,
        };
        let value = if sofar * 10 + digit > 256 {
            256
        } else {
            sofar * 10 + digit
        };
        TreeScan {
            run: Some(value),
            depth: s.depth,
            closed: s.closed,
            best: s.best,
            deepest: s.deepest,
        }
    } else {
        let e = finish(s);
        if e.closed {
            e
        } else if c == '(' {
            let depth = if e.depth < 32 {
                e.depth + 1
            } else {
                e.depth
            };
            TreeScan {
                depth,
                deepest: if depth > e.deepest {
                    depth
                } else {
                    e.deepest
                },
                closed: e.closed,
                run: e.run,
                best: e.best,
            }
        } else if c == ')' {
            if e.depth <= 1 {
                TreeScan { depth: 0, closed: true, run: e.run, best: e.best, deepest: e.deepest }
            } else {
                TreeScan {
                    depth: e.depth - 1,
                    closed: e.closed,
                    run: e.run,
                    best: e.best,
                    deepest: e.deepest,
                }
            }
        } else {
            e
        }
    }
}

fn finish(s: TreeScan) -> (r: TreeScan)
    ensures
        r == end_run(s),
{
    match s.run {
        Some(v) => if s.closed {
            TreeScan {
                run: None,
                depth: s.depth,
                closed: s.closed,
                best: s.best,
                deepest: s.deepest,
            }
        } else {
            TreeScan {
                run: None,
                best: if v > s.best {
                    v
                } else {
                    s.best
                },
                closed: s.depth == 0,
                depth: s.depth,
                deepest: s.deepest,
            }
        },
        None => s,
    }
}

/// Counts the bits that it takes to write `n`.
pub fn bits_of(n: usize) -> (r: u32)
    ensures
        r == bit_length(n as nat),
        r <= 64,
{
    let mut rest = n;
    let mut bits: u32 = 0;
    proof {
        vstd::arithmetic::power2::lemma2_to64();
        lemma_bit_length_bound(n as nat, 64);
    }
    while rest > 0
        invariant
            bit_length(n as nat) == bits + bit_length(rest as nat),
            bit_length(n as nat) <= 64,
        decreases rest,
    {
        rest = rest / 2;
        bits += 1;
    }
    bits
}

/// The bits that a number below `2^k` takes are at most `k`.
proof fn lemma_bit_length_bound(n: nat, k: nat)
    requires
        n < vstd::arithmetic::power2::pow2(k),
    ensures
        bit_length(n) <= k,
    decreases k,
{
    vstd::arithmetic::power2::lemma2_to64();
    if n > 0 {
        if k == 0 {
            assert(vstd::arithmetic::power2::pow2(0) == 1);
        } else {
            vstd::arithmetic::power2::lemma_pow2_unfold(k);
            lemma_bit_length_bound(n / 2, (k - 1) as nat);
        }
    }
}

/// Tells whether a tree's text can be given to the codec for matches of up
/// to `bits` bits.
pub fn covers(text: &str, bits: u32) -> (r: bool)
    ensures
        r == tree_covers(text@, bits as nat),
{
    let n = text.unicode_len();
    let mut s = TreeScan { depth: 0, closed: false, run: None, best: 0, deepest: 0 };
    let mut i: usize = 0;
    while i < n
        invariant
            i <= n,
            n == text@.len(),
            s == tree_scan(text@, i as int),
            s.depth <= 32,
            s.run matches Some(v) ==> v <= 256,
            forall|j: int| 0 <= j < i ==> tree_char(#[trigger] text@[j]),
        decreases n - i,
    {
        let c = text.get_char(i);
        if c as u32 >= 0x80 {
            assert(!tree_char(text@[i as int]));
            return false;
        }
        s = step(s, c);
        i += 1;
    }
    let e = finish(s);
    e.deepest <= MAX_DEPTH && e.best >= bits
}

fn accepts(tree: &Option<String>, bits: u32) -> (r: bool)
    ensures
        r == tree_accepted(*tree, bits as nat),
{
    match tree {
        Some(text) => covers(text.as_str(), bits),
        None => true,
    }
}

fn sampling_of(settings: Option<&VpkSettings>, len: usize) -> (r: Result<Sampling, LinkError>)
    ensures
        crate::error::outcome(r) == chosen_sampling(
            match settings {
                Some(s) => Some(*s),
                None => None,
            },
            len as nat,
        ),
{
    match settings {
        None => Ok(Sampling::One),
        Some(s) => {
            let method: u8 = match s.method {
                Some(m) => m,
                None => 0,
            };
            let back = if len < WINDOW {
                len
            } else {
                WINDOW
            };
            let ahead = if len < LONGEST_MATCH {
                len
            } else {
                LONGEST_MATCH
            };
            if method > 1 {
                Err(LinkError::BadConfig)
            } else if !accepts(&s.offsets, bits_of(back)) || !accepts(&s.lengths, bits_of(ahead)) {
                Err(LinkError::BadConfig)
            } else if method == 1 {
                Ok(Sampling::Two)
            } else {
                Ok(Sampling::One)
            }
        },
    }
}

/// Compresses `data` as the settings ask. Which bytes come back is up to
/// the codec: they are what it gave for `data`, the chosen sampling and the
/// trees of the settings, and they start with the header for `data` and
/// that sampling. Settings that are refused fail before the codec is called.
pub fn compress_data(data: Vec<u8>, settings: Option<&VpkSettings>) -> (r: Result<
    Vec<u8>,
    LinkError,
>)
    ensures
        match chosen_sampling(
            match settings {
                Some(s) => Some(*s),
                None => None,
            },
            data@.len(),
        ) {
            Err(e) => r matches Err(err) && err@ == e,
            Ok(sampling) => match r {
                Ok(out) => has_header(out@, data@.len(), sampling) && codec_output(
                    data@,
                    sampling_number(sampling),
                    given_offsets(
                        match settings {
                            Some(s) => Some(*s),
                            None => None,
                        },
                    ),
                    given_lengths(
                        match settings {
                            Some(s) => Some(*s),
                            None => None,
                        },
                    ),
                    out@,
                ),
                Err(err) => err@ == Failure::Compress,
            },
        },
{
    let sampling = match sampling_of(settings, data.len()) {
        Ok(sampling) => sampling,
        Err(e) => {
            return Err(e);
        },
    };
    let (offsets, lengths) = match settings {
        Some(s) => (
            match &s.offsets {
                Some(text) => Some(text.as_str()),
                None => None,
            },
            match &s.lengths {
                Some(text) => Some(text.as_str()),
                None => None,
            },
        ),
        None => (None, None),
    };
    match encode(data.as_slice(), sampling, offsets, lengths) {
        Ok(out) => Ok(out),
        Err(_) => Err(LinkError::Compress),
    }
}

} // verus!
