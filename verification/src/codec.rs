//! The compact tuple-style binary schema used to ship a reconstructed call
//! tree across the boundary.
//!
//! Each frame is laid out as a flat tuple, in field order: message (sender,
//! receiver, method, parameter bytes, transferred value), receipt (exit
//! code, return bytes), error text, then the child frames. Integers are
//! written big-endian at fixed width; byte strings and texts carry a 64-bit
//! length; text characters are written as 32-bit code points; the child
//! list carries a 64-bit count. Decoding is proved to be the exact inverse
//! of encoding.

use vstd::prelude::*;

use crate::trace::{
    frame_view, frames_view, lemma_frames_view_index, lemma_frames_view_push, CallFrame,
    MessageData, ReceiptData, SpecFrame, SpecMessage, SpecReceipt,
};

verus! {

// ---------------------------------------------------------------------------
// Specification encoding
// ---------------------------------------------------------------------------

/// Big-endian bytes of a 64-bit integer.
pub open spec fn spec_u64_be(v: u64) -> Seq<u8> {
    seq![
        (v >> 56) as u8,
        (v >> 48) as u8,
        (v >> 40) as u8,
        (v >> 32) as u8,
        (v >> 24) as u8,
        (v >> 16) as u8,
        (v >> 8) as u8,
        v as u8,
    ]
}

/// Big-endian bytes of a 32-bit integer.
pub open spec fn spec_u32_be(v: u32) -> Seq<u8> {
    seq![(v >> 24) as u8, (v >> 16) as u8, (v >> 8) as u8, v as u8]
}

/// Big-endian bytes of a 128-bit integer: high half, then low half.
pub open spec fn spec_u128_be(v: u128) -> Seq<u8> {
    spec_u64_be((v >> 64) as u64) + spec_u64_be(v as u64)
}

/// A length-prefixed byte string.
pub open spec fn spec_bytes_enc(b: Seq<u8>) -> Seq<u8> {
    spec_u64_be(b.len() as u64) + b
}

/// Code points of a text, one 32-bit record per character.
pub open spec fn spec_chars_enc(t: Seq<char>) -> Seq<u8>
    decreases t,
{
    if t.len() == 0 {
        Seq::empty()
    } else {
        spec_u32_be(t[0] as u32) + spec_chars_enc(t.subrange(1, t.len() as int))
    }
}

/// A length-prefixed text.
pub open spec fn spec_text_enc(t: Seq<char>) -> Seq<u8> {
    spec_u64_be(t.len() as u64) + spec_chars_enc(t)
}

/// The tuple encoding of one frame.
pub open spec fn spec_encode_frame(f: SpecFrame) -> Seq<u8>
    decreases f,
{
    spec_u64_be(f.msg.from) + spec_u64_be(f.msg.to) + spec_u64_be(f.msg.method) + spec_bytes_enc(
        f.msg.params,
    ) + spec_u128_be(f.msg.value) + spec_u32_be(f.receipt.exit_code) + spec_bytes_enc(
        f.receipt.return_data,
    ) + spec_text_enc(f.error) + spec_u64_be(f.children.len() as u64) + spec_encode_forest(
        f.children,
    )
}

/// The tuple encodings of a list of frames, in order.
pub open spec fn spec_encode_forest(fs: Seq<SpecFrame>) -> Seq<u8>
    decreases fs,
{
    if fs.len() == 0 {
        Seq::empty()
    } else {
        spec_encode_frame(fs[0]) + spec_encode_forest(fs.subrange(1, fs.len() as int))
    }
}

/// Whether every length in the tree fits the 64-bit fields of the schema.
pub open spec fn frame_encodable(f: SpecFrame) -> bool
    decreases f,
{
    &&& f.msg.params.len() <= 0xFFFF_FFFF_FFFF_FFFF
    &&& f.receipt.return_data.len() <= 0xFFFF_FFFF_FFFF_FFFF
    &&& f.error.len() <= 0xFFFF_FFFF_FFFF_FFFF
    &&& f.children.len() <= 0xFFFF_FFFF_FFFF_FFFF
    &&& forest_encodable(f.children)
}

pub open spec fn forest_encodable(fs: Seq<SpecFrame>) -> bool
    decreases fs,
{
    if fs.len() == 0 {
        true
    } else {
        frame_encodable(fs[0]) && forest_encodable(fs.subrange(1, fs.len() as int))
    }
}

// ---------------------------------------------------------------------------
// Specification decoding
// ---------------------------------------------------------------------------

/// Whether a 32-bit value is a Unicode scalar value, so that exactly one
/// character carries it as its code point.
pub open spec fn is_scalar_value(v: u32) -> bool {
    v < 0xD800 || (0xE000 <= v && v <= 0x10FFFF)
}

pub open spec fn spec_read_u64(b: Seq<u8>, pos: int) -> Option<(u64, int)> {
    if pos < 0 || pos + 8 > b.len() {
        None
    } else {
        Some(
            (
                ((b[pos] as u64) << 56) | ((b[pos + 1] as u64) << 48) | ((b[pos + 2] as u64) << 40)
                    | ((b[pos + 3] as u64) << 32) | ((b[pos + 4] as u64) << 24) | ((b[pos
                    + 5] as u64) << 16) | ((b[pos + 6] as u64) << 8) | (b[pos + 7] as u64),
                pos + 8,
            ),
        )
    }
}

pub open spec fn spec_read_u32(b: Seq<u8>, pos: int) -> Option<(u32, int)> {
    if pos < 0 || pos + 4 > b.len() {
        None
    } else {
        Some(
            (
                ((b[pos] as u32) << 24) | ((b[pos + 1] as u32) << 16) | ((b[pos + 2] as u32) << 8)
                    | (b[pos + 3] as u32),
                pos + 4,
            ),
        )
    }
}

pub open spec fn spec_read_u128(b: Seq<u8>, pos: int) -> Option<(u128, int)> {
    match spec_read_u64(b, pos) {
        None => None,
        Some(hi) => match spec_read_u64(b, hi.1) {
            None => None,
            Some(lo) => Some((((hi.0 as u128) << 64) | (lo.0 as u128), lo.1)),
        },
    }
}

/// Reads a length-prefixed byte string.
pub open spec fn spec_read_chunk(b: Seq<u8>, pos: int) -> Option<(Seq<u8>, int)> {
    match spec_read_u64(b, pos) {
        None => None,
        Some(n) => if n.1 + n.0 > b.len() {
            None
        } else {
            Some((b.subrange(n.1, n.1 + n.0), n.1 + n.0))
        },
    }
}

/// Reads `k` characters, each a 32-bit code point that must be a scalar
/// value.
pub open spec fn spec_read_chars(b: Seq<u8>, pos: int, k: nat) -> Option<(Seq<char>, int)>
    decreases k,
{
    if k == 0 {
        if pos < 0 || pos > b.len() {
            None
        } else {
            Some((Seq::empty(), pos))
        }
    } else {
        match spec_read_u32(b, pos) {
            None => None,
            Some(c) => if !is_scalar_value(c.0) {
                None
            } else {
                match spec_read_chars(b, c.1, (k - 1) as nat) {
                    None => None,
                    Some(t) => Some((seq![(c.0 as char)] + t.0, t.1)),
                }
            },
        }
    }
}

/// Reads a length-prefixed text.
pub open spec fn spec_read_text(b: Seq<u8>, pos: int) -> Option<(Seq<char>, int)> {
    match spec_read_u64(b, pos) {
        None => None,
        Some(n) => spec_read_chars(b, n.1, n.0 as nat),
    }
}

/// Decodes one frame at `pos`: the exact inverse of [`spec_encode_frame`].
pub open spec fn spec_decode_frame(b: Seq<u8>, pos: int) -> Option<(SpecFrame, int)>
    decreases b.len() - pos, 0int,
{
    if pos < 0 || pos >= b.len() {
        None
    } else {
        match spec_read_u64(b, pos) {
            None => None,
            Some(from) => match spec_read_u64(b, from.1) {
                None => None,
                Some(to) => match spec_read_u64(b, to.1) {
                    None => None,
                    Some(method) => match spec_read_chunk(b, method.1) {
                        None => None,
                        Some(params) => match spec_read_u128(b, params.1) {
                            None => None,
                            Some(value) => match spec_read_u32(b, value.1) {
                                None => None,
                                Some(exit) => match spec_read_chunk(b, exit.1) {
                                    None => None,
                                    Some(rdata) => match spec_read_text(b, rdata.1) {
                                        None => None,
                                        Some(error) => match spec_read_u64(b, error.1) {
                                            None => None,
                                            Some(count) => if count.1 <= pos || count.1 > b.len() {
                                                None
                                            } else {
                                                match spec_decode_forest(
                                                    b,
                                                    count.1,
                                                    count.0 as nat,
                                                ) {
                                                    None => None,
                                                    Some(children) => Some(
                                                        (
                                                            SpecFrame {
                                                                msg: SpecMessage {
                                                                    from: from.0,
                                                                    to: to.0,
                                                                    method: method.0,
                                                                    params: params.0,
                                                                    value: value.0,
                                                                },
                                                                receipt: SpecReceipt {
                                                                    exit_code: exit.0,
                                                                    return_data: rdata.0,
                                                                },
                                                                error: error.0,
                                                                children: children.0,
                                                            },
                                                            children.1,
                                                        ),
                                                    ),
                                                }
                                            },
                                        },
                                    },
                                },
                            },
                        },
                    },
                },
            },
        }
    }
}

/// Decodes `k` consecutive frames.
pub open spec fn spec_decode_forest(b: Seq<u8>, pos: int, k: nat) -> Option<(Seq<SpecFrame>, int)>
    decreases b.len() - pos, k,
{
    if k == 0 {
        if pos < 0 || pos > b.len() {
            None
        } else {
            Some((Seq::empty(), pos))
        }
    } else if pos < 0 || pos >= b.len() {
        None
    } else {
        match spec_decode_frame(b, pos) {
            None => None,
            Some(f) => if f.1 <= pos || f.1 > b.len() {
                None
            } else {
                match spec_decode_forest(b, f.1, (k - 1) as nat) {
                    None => None,
                    Some(fs) => Some((seq![f.0] + fs.0, fs.1)),
                }
            },
        }
    }
}

// ---------------------------------------------------------------------------
// Decoding inverts encoding
// ---------------------------------------------------------------------------

pub proof fn lemma_chars_enc_len(t: Seq<char>)
    ensures
        spec_chars_enc(t).len() == 4 * t.len(),
    decreases t,
{
    if t.len() > 0 {
        lemma_chars_enc_len(t.subrange(1, t.len() as int));
    }
}

proof fn lemma_subrange_eq_piece(b: Seq<u8>, pos: int, e: Seq<u8>, lo: int, hi: int)
    requires
        0 <= pos,
        pos + e.len() <= b.len(),
        b.subrange(pos, pos + e.len()) == e,
        0 <= lo <= hi <= e.len(),
    ensures
        b.subrange(pos + lo, pos + hi) == e.subrange(lo, hi),
{
    assert forall|i: int| 0 <= i < hi - lo implies b.subrange(pos + lo, pos + hi)[i] == e.subrange(
        lo,
        hi,
    )[i] by {
        assert(b.subrange(pos, pos + e.len())[lo + i] == b[pos + lo + i]);
        assert(b.subrange(pos + lo, pos + hi)[i] == b[pos + lo + i]);
    }
    assert(b.subrange(pos + lo, pos + hi) =~= e.subrange(lo, hi));
}

proof fn lemma_read_u64_enc(b: Seq<u8>, pos: int, v: u64)
    requires
        0 <= pos,
        pos + 8 <= b.len(),
        b.subrange(pos, pos + 8) == spec_u64_be(v),
    ensures
        spec_read_u64(b, pos) == Some((v, pos + 8)),
{
    let e = spec_u64_be(v);
    assert(b[pos] == e[0]) by {
        assert(b.subrange(pos, pos + 8)[0] == b[pos]);
    }
    assert(b[pos + 1] == e[1]) by {
        assert(b.subrange(pos, pos + 8)[1] == b[pos + 1]);
    }
    assert(b[pos + 2] == e[2]) by {
        assert(b.subrange(pos, pos + 8)[2] == b[pos + 2]);
    }
    assert(b[pos + 3] == e[3]) by {
        assert(b.subrange(pos, pos + 8)[3] == b[pos + 3]);
    }
    assert(b[pos + 4] == e[4]) by {
        assert(b.subrange(pos, pos + 8)[4] == b[pos + 4]);
    }
    assert(b[pos + 5] == e[5]) by {
        assert(b.subrange(pos, pos + 8)[5] == b[pos + 5]);
    }
    assert(b[pos + 6] == e[6]) by {
        assert(b.subrange(pos, pos + 8)[6] == b[pos + 6]);
    }
    assert(b[pos + 7] == e[7]) by {
        assert(b.subrange(pos, pos + 8)[7] == b[pos + 7]);
    }
    let x0 = b[pos];
    let x1 = b[pos + 1];
    let x2 = b[pos + 2];
    let x3 = b[pos + 3];
    let x4 = b[pos + 4];
    let x5 = b[pos + 5];
    let x6 = b[pos + 6];
    let x7 = b[pos + 7];
    assert((((x0 as u64) << 56) | ((x1 as u64) << 48) | ((x2 as u64) << 40) | ((x3 as u64) << 32)
        | ((x4 as u64) << 24) | ((x5 as u64) << 16) | ((x6 as u64) << 8) | (x7 as u64)) == v)
        by (bit_vector)
        requires
            x0 == (v >> 56) as u8,
            x1 == (v >> 48) as u8,
            x2 == (v >> 40) as u8,
            x3 == (v >> 32) as u8,
            x4 == (v >> 24) as u8,
            x5 == (v >> 16) as u8,
            x6 == (v >> 8) as u8,
            x7 == v as u8,
    ;
}

proof fn lemma_read_u32_enc(b: Seq<u8>, pos: int, v: u32)
    requires
        0 <= pos,
        pos + 4 <= b.len(),
        b.subrange(pos, pos + 4) == spec_u32_be(v),
    ensures
        spec_read_u32(b, pos) == Some((v, pos + 4)),
{
    let e = spec_u32_be(v);
    assert(b[pos] == e[0]) by {
        assert(b.subrange(pos, pos + 4)[0] == b[pos]);
    }
    assert(b[pos + 1] == e[1]) by {
        assert(b.subrange(pos, pos + 4)[1] == b[pos + 1]);
    }
    assert(b[pos + 2] == e[2]) by {
        assert(b.subrange(pos, pos + 4)[2] == b[pos + 2]);
    }
    assert(b[pos + 3] == e[3]) by {
        assert(b.subrange(pos, pos + 4)[3] == b[pos + 3]);
    }
    let x0 = b[pos];
    let x1 = b[pos + 1];
    let x2 = b[pos + 2];
    let x3 = b[pos + 3];
    assert((((x0 as u32) << 24) | ((x1 as u32) << 16) | ((x2 as u32) << 8) | (x3 as u32)) == v)
        by (bit_vector)
        requires
            x0 == (v >> 24) as u8,
            x1 == (v >> 16) as u8,
            x2 == (v >> 8) as u8,
            x3 == v as u8,
    ;
}

proof fn lemma_read_u128_enc(b: Seq<u8>, pos: int, v: u128)
    requires
        0 <= pos,
        pos + 16 <= b.len(),
        b.subrange(pos, pos + 16) == spec_u128_be(v),
    ensures
        spec_read_u128(b, pos) == Some((v, pos + 16)),
{
    let hi = (v >> 64) as u64;
    let lo = v as u64;
    let e = spec_u128_be(v);
    lemma_subrange_eq_piece(b, pos, e, 0, 8);
    lemma_subrange_eq_piece(b, pos, e, 8, 16);
    assert(e.subrange(0, 8) =~= spec_u64_be(hi));
    assert(e.subrange(8, 16) =~= spec_u64_be(lo));
    lemma_read_u64_enc(b, pos, hi);
    lemma_read_u64_enc(b, pos + 8, lo);
    assert((((hi as u128) << 64) | (lo as u128)) == v) by (bit_vector)
        requires
            hi == (v >> 64) as u64,
            lo == v as u64,
    ;
}

proof fn lemma_read_chunk_enc(b: Seq<u8>, pos: int, d: Seq<u8>)
    requires
        0 <= pos,
        d.len() <= 0xFFFF_FFFF_FFFF_FFFF,
        pos + 8 + d.len() <= b.len(),
        b.subrange(pos, pos + 8 + d.len()) == spec_bytes_enc(d),
    ensures
        spec_read_chunk(b, pos) == Some((d, pos + 8 + d.len())),
{
    let e = spec_bytes_enc(d);
    lemma_subrange_eq_piece(b, pos, e, 0, 8);
    lemma_subrange_eq_piece(b, pos, e, 8, 8 + d.len() as int);
    assert(e.subrange(0, 8) =~= spec_u64_be(d.len() as u64));
    assert(e.subrange(8, 8 + d.len() as int) =~= d);
    lemma_read_u64_enc(b, pos, d.len() as u64);
    assert(d.len() as u64 as int == d.len());
}

proof fn lemma_read_chars_enc(b: Seq<u8>, pos: int, t: Seq<char>)
    requires
        0 <= pos,
        pos + 4 * t.len() <= b.len(),
        b.subrange(pos, pos + 4 * t.len()) == spec_chars_enc(t),
    ensures
        spec_read_chars(b, pos, t.len()) == Some((t, pos + 4 * t.len())),
    decreases t,
{
    lemma_chars_enc_len(t);
    if t.len() == 0 {
    } else {
        let t1 = t.subrange(1, t.len() as int);
        lemma_chars_enc_len(t1);
        let c0 = t[0] as u32;
        let e = spec_chars_enc(t);
        lemma_subrange_eq_piece(b, pos, e, 0, 4);
        lemma_subrange_eq_piece(b, pos, e, 4, 4 + 4 * t1.len() as int);
        assert(e.subrange(0, 4) =~= spec_u32_be(c0));
        assert(e.subrange(4, 4 + 4 * t1.len() as int) =~= spec_chars_enc(t1));
        lemma_read_u32_enc(b, pos, c0);
        vstd::utf8::char_is_scalar(t[0]);
        assert(is_scalar_value(c0));
        vstd::utf8::char_u32_cast(t[0], c0);
        assert((c0 as char) == t[0]);
        lemma_read_chars_enc(b, pos + 4, t1);
        assert(seq![(c0 as char)] + t1 =~= t);
    }
}

proof fn lemma_read_text_enc(b: Seq<u8>, pos: int, t: Seq<char>)
    requires
        0 <= pos,
        t.len() <= 0xFFFF_FFFF_FFFF_FFFF,
        pos + 8 + 4 * t.len() <= b.len(),
        b.subrange(pos, pos + 8 + 4 * t.len()) == spec_text_enc(t),
    ensures
        spec_read_text(b, pos) == Some((t, pos + 8 + 4 * t.len())),
{
    lemma_chars_enc_len(t);
    let e = spec_text_enc(t);
    lemma_subrange_eq_piece(b, pos, e, 0, 8);
    lemma_subrange_eq_piece(b, pos, e, 8, 8 + 4 * t.len() as int);
    assert(e.subrange(0, 8) =~= spec_u64_be(t.len() as u64));
    assert(e.subrange(8, 8 + 4 * t.len() as int) =~= spec_chars_enc(t));
    lemma_read_u64_enc(b, pos, t.len() as u64);
    assert(t.len() as u64 as int == t.len());
    lemma_read_chars_enc(b, pos + 8, t);
}

/// Decoding reads back exactly the frame whose encoding sits at `pos`.
#[verifier::rlimit(100)]
#[verifier::spinoff_prover]
pub proof fn lemma_decode_encode_frame(b: Seq<u8>, pos: int, f: SpecFrame)
    requires
        frame_encodable(f),
        0 <= pos,
        pos + spec_encode_frame(f).len() <= b.len(),
        b.subrange(pos, pos + spec_encode_frame(f).len()) == spec_encode_frame(f),
    ensures
        spec_decode_frame(b, pos) == Some((f, pos + spec_encode_frame(f).len())),
    decreases f, 0nat,
{
    let e = spec_encode_frame(f);
    let pl = f.msg.params.len() as int;
    let rl = f.receipt.return_data.len() as int;
    let el = f.error.len() as int;
    lemma_chars_enc_len(f.error);
    let fl = spec_encode_forest(f.children).len() as int;
    assert(e.len() == 76 + pl + rl + 4 * el + fl);
    lemma_subrange_eq_piece(b, pos, e, 0, 8);
    assert(e.subrange(0, 8) =~= spec_u64_be(f.msg.from));
    lemma_read_u64_enc(b, pos, f.msg.from);
    lemma_subrange_eq_piece(b, pos, e, 8, 16);
    assert(e.subrange(8, 16) =~= spec_u64_be(f.msg.to));
    lemma_read_u64_enc(b, pos + 8, f.msg.to);
    lemma_subrange_eq_piece(b, pos, e, 16, 24);
    assert(e.subrange(16, 24) =~= spec_u64_be(f.msg.method));
    lemma_read_u64_enc(b, pos + 16, f.msg.method);
    lemma_subrange_eq_piece(b, pos, e, 24, 32 + pl);
    assert(e.subrange(24, 32 + pl) =~= spec_bytes_enc(f.msg.params));
    lemma_read_chunk_enc(b, pos + 24, f.msg.params);
    lemma_subrange_eq_piece(b, pos, e, 32 + pl, 48 + pl);
    assert(e.subrange(32 + pl, 48 + pl) =~= spec_u128_be(f.msg.value));
    lemma_read_u128_enc(b, pos + 32 + pl, f.msg.value);
    lemma_subrange_eq_piece(b, pos, e, 48 + pl, 52 + pl);
    assert(e.subrange(48 + pl, 52 + pl) =~= spec_u32_be(f.receipt.exit_code));
    lemma_read_u32_enc(b, pos + 48 + pl, f.receipt.exit_code);
    lemma_subrange_eq_piece(b, pos, e, 52 + pl, 60 + pl + rl);
    assert(e.subrange(52 + pl, 60 + pl + rl) =~= spec_bytes_enc(f.receipt.return_data));
    lemma_read_chunk_enc(b, pos + 52 + pl, f.receipt.return_data);
    lemma_subrange_eq_piece(b, pos, e, 60 + pl + rl, 68 + pl + rl + 4 * el);
    assert(e.subrange(60 + pl + rl, 68 + pl + rl + 4 * el) =~= spec_text_enc(f.error));
    lemma_read_text_enc(b, pos + 60 + pl + rl, f.error);
    lemma_subrange_eq_piece(b, pos, e, 68 + pl + rl + 4 * el, 76 + pl + rl + 4 * el);
    assert(e.subrange(68 + pl + rl + 4 * el, 76 + pl + rl + 4 * el) =~= spec_u64_be(
        f.children.len() as u64,
    ));
    lemma_read_u64_enc(b, pos + 68 + pl + rl + 4 * el, f.children.len() as u64);
    assert(f.children.len() as u64 as nat == f.children.len());
    lemma_subrange_eq_piece(b, pos, e, 76 + pl + rl + 4 * el, 76 + pl + rl + 4 * el + fl);
    assert(e.subrange(76 + pl + rl + 4 * el, 76 + pl + rl + 4 * el + fl) =~= spec_encode_forest(
        f.children,
    ));
    lemma_decode_encode_forest(b, pos + 76 + pl + rl + 4 * el, f.children);
}

/// Decoding reads back exactly the frames whose encodings sit at `pos`.
pub proof fn lemma_decode_encode_forest(b: Seq<u8>, pos: int, fs: Seq<SpecFrame>)
    requires
        forest_encodable(fs),
        0 <= pos,
        pos + spec_encode_forest(fs).len() <= b.len(),
        b.subrange(pos, pos + spec_encode_forest(fs).len()) == spec_encode_forest(fs),
    ensures
        spec_decode_forest(b, pos, fs.len()) == Some((fs, pos + spec_encode_forest(fs).len())),
    decreases fs, 1nat,
{
    if fs.len() == 0 {
        assert(fs =~= Seq::<SpecFrame>::empty());
    } else {
        let f0 = fs[0];
        let rest = fs.subrange(1, fs.len() as int);
        let e0 = spec_encode_frame(f0);
        let er = spec_encode_forest(rest);
        lemma_chars_enc_len(f0.error);
        assert(e0.len() >= 76);
        let e = spec_encode_forest(fs);
        lemma_subrange_eq_piece(b, pos, e, 0, e0.len() as int);
        assert(e.subrange(0, e0.len() as int) =~= e0);
        lemma_decode_encode_frame(b, pos, f0);
        lemma_subrange_eq_piece(b, pos, e, e0.len() as int, e0.len() + er.len() as int);
        assert(e.subrange(e0.len() as int, e0.len() + er.len() as int) =~= er);
        lemma_decode_encode_forest(b, pos + e0.len() as int, rest);
        assert(seq![f0] + rest =~= fs);
    }
}

/// Law: decoding an encoded frame reproduces the identical frame and
/// consumes exactly its encoding; the schema round-trips every call tree
/// whose lengths fit its 64-bit fields.
pub proof fn lemma_codec_round_trip(f: SpecFrame)
    requires
        frame_encodable(f),
    ensures
        spec_decode_frame(spec_encode_frame(f), 0) == Some(
            (f, spec_encode_frame(f).len() as int),
        ),
{
    let e = spec_encode_frame(f);
    assert(e.subrange(0, e.len() as int) =~= e);
    lemma_decode_encode_frame(e, 0, f);
}

// ---------------------------------------------------------------------------
// Executable encoding
// ---------------------------------------------------------------------------

fn push_u64_be(out: &mut Vec<u8>, v: u64)
    ensures
        final(out)@ == old(out)@ + spec_u64_be(v),
{
    out.push((v >> 56) as u8);
    out.push((v >> 48) as u8);
    out.push((v >> 40) as u8);
    out.push((v >> 32) as u8);
    out.push((v >> 24) as u8);
    out.push((v >> 16) as u8);
    out.push((v >> 8) as u8);
    out.push(v as u8);
    proof {
        assert(out@ =~= old(out)@ + spec_u64_be(v));
    }
}

fn push_u32_be(out: &mut Vec<u8>, v: u32)
    ensures
        final(out)@ == old(out)@ + spec_u32_be(v),
{
    out.push((v >> 24) as u8);
    out.push((v >> 16) as u8);
    out.push((v >> 8) as u8);
    out.push(v as u8);
    proof {
        assert(out@ =~= old(out)@ + spec_u32_be(v));
    }
}

fn push_u128_be(out: &mut Vec<u8>, v: u128)
    ensures
        final(out)@ == old(out)@ + spec_u128_be(v),
{
    push_u64_be(out, (v >> 64) as u64);
    push_u64_be(out, v as u64);
    proof {
        assert(out@ =~= old(out)@ + spec_u128_be(v));
    }
}

fn push_chunk(out: &mut Vec<u8>, d: &Vec<u8>)
    ensures
        final(out)@ == old(out)@ + spec_bytes_enc(d@),
{
    push_u64_be(out, d.len() as u64);
    let ghost mid = out@;
    let mut i: usize = 0;
    while i < d.len()
        invariant
            i <= d@.len(),
            out@ == mid + d@.subrange(0, i as int),
        decreases d@.len() - i,
    {
        out.push(d[i]);
        i = i + 1;
        proof {
            assert(out@ =~= mid + d@.subrange(0, i as int));
        }
    }
    proof {
        assert(d@.subrange(0, d@.len() as int) =~= d@);
        assert(out@ =~= old(out)@ + spec_bytes_enc(d@));
    }
}

proof fn lemma_chars_enc_push(s: Seq<char>, c: char)
    ensures
        spec_chars_enc(s.push(c)) == spec_chars_enc(s) + spec_u32_be(c as u32),
    decreases s,
{
    if s.len() == 0 {
        assert(s.push(c)[0] == c);
        assert(s.push(c).subrange(1, 1) =~= Seq::<char>::empty());
        assert(spec_chars_enc(Seq::<char>::empty()) == Seq::<u8>::empty());
        assert(spec_chars_enc(s.push(c)) =~= spec_chars_enc(s) + spec_u32_be(c as u32));
    } else {
        assert(s.push(c)[0] == s[0]);
        assert(s.push(c).subrange(1, s.len() as int + 1) =~= s.subrange(1, s.len() as int).push(c));
        lemma_chars_enc_push(s.subrange(1, s.len() as int), c);
        assert(spec_chars_enc(s.push(c)) =~= spec_chars_enc(s) + spec_u32_be(c as u32));
    }
}

fn push_text(out: &mut Vec<u8>, t: &String)
    ensures
        final(out)@ == old(out)@ + spec_text_enc(t@),
{
    let n = t.as_str().unicode_len();
    push_u64_be(out, n as u64);
    let ghost mid = out@;
    let mut i: usize = 0;
    while i < n
        invariant
            i <= t@.len(),
            n == t@.len(),
            out@ == mid + spec_chars_enc(t@.subrange(0, i as int)),
        decreases t@.len() - i,
    {
        let c = t.as_str().get_char(i);
        push_u32_be(out, c as u32);
        proof {
            lemma_chars_enc_push(t@.subrange(0, i as int), c);
            assert(t@.subrange(0, i as int).push(c) =~= t@.subrange(0, i + 1));
            assert(out@ =~= mid + spec_chars_enc(t@.subrange(0, i + 1)));
        }
        i = i + 1;
    }
    proof {
        assert(t@.subrange(0, t@.len() as int) =~= t@);
        assert(out@ =~= old(out)@ + spec_text_enc(t@));
    }
}

proof fn lemma_forest_enc_push(fs: Seq<SpecFrame>, f: SpecFrame)
    ensures
        spec_encode_forest(fs.push(f)) == spec_encode_forest(fs) + spec_encode_frame(f),
    decreases fs,
{
    if fs.len() == 0 {
        assert(fs.push(f)[0] == f);
        assert(fs.push(f).subrange(1, 1) =~= Seq::<SpecFrame>::empty());
        assert(spec_encode_forest(Seq::<SpecFrame>::empty()) == Seq::<u8>::empty());
        assert(spec_encode_forest(fs.push(f)) == spec_encode_frame(f) + Seq::<u8>::empty());
        assert(spec_encode_forest(fs.push(f)) =~= spec_encode_forest(fs) + spec_encode_frame(f));
    } else {
        assert(fs.push(f)[0] == fs[0]);
        assert(fs.push(f).subrange(1, fs.len() as int + 1) =~= fs.subrange(1, fs.len() as int).push(
            f,
        ));
        lemma_forest_enc_push(fs.subrange(1, fs.len() as int), f);
        assert(spec_encode_forest(fs.push(f)) == spec_encode_frame(fs[0]) + (spec_encode_forest(
            fs.subrange(1, fs.len() as int),
        ) + spec_encode_frame(f)));
        assert(spec_encode_frame(fs[0]) + (spec_encode_forest(fs.subrange(1, fs.len() as int))
            + spec_encode_frame(f)) =~= (spec_encode_frame(fs[0]) + spec_encode_forest(
            fs.subrange(1, fs.len() as int),
        )) + spec_encode_frame(f));
    }
}

fn encode_frame_into(out: &mut Vec<u8>, f: &CallFrame)
    ensures
        final(out)@ == old(out)@ + spec_encode_frame(frame_view(*f)),
    decreases *f,
{
    push_u64_be(out, f.msg.from);
    push_u64_be(out, f.msg.to);
    push_u64_be(out, f.msg.method);
    push_chunk(out, &f.msg.params);
    push_u128_be(out, f.msg.value);
    push_u32_be(out, f.receipt.exit_code);
    push_chunk(out, &f.receipt.return_data);
    push_text(out, &f.error);
    push_u64_be(out, f.children.len() as u64);
    let ghost mid = out@;
    let ghost cv = frame_view(*f).children;
    proof {
        crate::trace::lemma_frames_view_len(f.children@);
    }
    let mut j: usize = 0;
    while j < f.children.len()
        invariant
            j <= f.children@.len(),
            cv == frames_view(f.children@),
            cv.len() == f.children@.len(),
            out@ == mid + spec_encode_forest(cv.subrange(0, j as int)),
        decreases f.children@.len() - j,
    {
        proof {
            assert(spec_encode_forest(cv.subrange(0, j as int)).len() >= 0);
        }
        encode_frame_into(out, &f.children[j]);
        proof {
            lemma_frames_view_index(f.children@, j as int);
            lemma_forest_enc_push(cv.subrange(0, j as int), cv[j as int]);
            assert(cv.subrange(0, j as int).push(cv[j as int]) =~= cv.subrange(0, j + 1));
            assert(out@ =~= mid + spec_encode_forest(cv.subrange(0, j + 1)));
        }
        j = j + 1;
    }
    proof {
        assert(cv.subrange(0, cv.len() as int) =~= cv);
        assert(out@ =~= old(out)@ + spec_encode_frame(frame_view(*f)));
    }
}

/// Encodes one frame under the tuple schema.
pub fn encode_frame(f: &CallFrame) -> (out: Vec<u8>)
    ensures
        out@ == spec_encode_frame(frame_view(*f)),
{
    let mut out: Vec<u8> = Vec::new();
    encode_frame_into(&mut out, f);
    proof {
        assert(Seq::<u8>::empty() + spec_encode_frame(frame_view(*f)) =~= spec_encode_frame(
            frame_view(*f),
        ));
    }
    out
}

// ---------------------------------------------------------------------------
// Executable decoding
// ---------------------------------------------------------------------------

/// Relies on `char::from_u32`: it returns the character with the given code
/// point exactly for Unicode scalar values (all values except surrogates
/// and those above the Unicode maximum), and nothing otherwise.
pub assume_specification[ char::from_u32 ](v: u32) -> (r: Option<char>)
    ensures
        r == (if is_scalar_value(v) {
            Some((v as char))
        } else {
            None::<char>
        }),
;

/// Relies on `String::push`: it appends the one character at the end.
#[verifier::external_body]
pub(crate) fn push_char(s: &mut String, c: char)
    ensures
        final(s)@ == old(s)@.push(c),
{
    s.push(c);
}

fn read_u64(b: &Vec<u8>, pos: usize) -> (r: Option<(u64, usize)>)
    ensures
        match r {
            Some(p) => spec_read_u64(b@, pos as int) == Some((p.0, p.1 as int)),
            None => spec_read_u64(b@, pos as int) is None,
        },
{
    if b.len() < 8 || pos > b.len() - 8 {
        return None;
    }
    let v = ((b[pos] as u64) << 56) | ((b[pos + 1] as u64) << 48) | ((b[pos + 2] as u64) << 40) | (
    (b[pos + 3] as u64) << 32) | ((b[pos + 4] as u64) << 24) | ((b[pos + 5] as u64) << 16) | ((b[
        pos + 6] as u64) << 8) | (b[pos + 7] as u64);
    Some((v, pos + 8))
}

fn read_u32(b: &Vec<u8>, pos: usize) -> (r: Option<(u32, usize)>)
    ensures
        match r {
            Some(p) => spec_read_u32(b@, pos as int) == Some((p.0, p.1 as int)),
            None => spec_read_u32(b@, pos as int) is None,
        },
{
    if b.len() < 4 || pos > b.len() - 4 {
        return None;
    }
    let v = ((b[pos] as u32) << 24) | ((b[pos + 1] as u32) << 16) | ((b[pos + 2] as u32) << 8) | (
    b[pos + 3] as u32);
    Some((v, pos + 4))
}

fn read_u128(b: &Vec<u8>, pos: usize) -> (r: Option<(u128, usize)>)
    ensures
        match r {
            Some(p) => spec_read_u128(b@, pos as int) == Some((p.0, p.1 as int)),
            None => spec_read_u128(b@, pos as int) is None,
        },
{
    let hi = match read_u64(b, pos) {
        Some(hi) => hi,
        None => {
            return None;
        },
    };
    let lo = match read_u64(b, hi.1) {
        Some(lo) => lo,
        None => {
            return None;
        },
    };
    Some((((hi.0 as u128) << 64) | (lo.0 as u128), lo.1))
}

fn read_chunk(b: &Vec<u8>, pos: usize) -> (r: Option<(Vec<u8>, usize)>)
    ensures
        match r {
            Some(p) => spec_read_chunk(b@, pos as int) matches Some(q) && q.0 == p.0@ && q.1
                == p.1 as int,
            None => spec_read_chunk(b@, pos as int) is None,
        },
{
    let n = match read_u64(b, pos) {
        Some(n) => n,
        None => {
            return None;
        },
    };
    if n.0 > (b.len() - n.1) as u64 {
        return None;
    }
    proof {
        assert(n.1 <= b@.len());
        assert(n.0 as int <= b@.len() - n.1 as int);
    }
    let len = n.0 as usize;
    proof {
        assert(len as int == n.0 as int);
    }
    let mut d: Vec<u8> = Vec::new();
    let mut i: usize = 0;
    proof {
        assert(b@.len() == b.len());
    }
    while i < len
        invariant
            i <= len,
            n.1 + len <= b@.len(),
            b@.len() <= usize::MAX,
            d@ == b@.subrange(n.1 as int, n.1 + i as int),
        decreases len - i,
    {
        d.push(b[n.1 + i]);
        i = i + 1;
        proof {
            assert(d@ =~= b@.subrange(n.1 as int, n.1 + i as int));
        }
    }
    Some((d, n.1 + len))
}

fn read_text(b: &Vec<u8>, pos: usize) -> (r: Option<(String, usize)>)
    ensures
        match r {
            Some(p) => spec_read_text(b@, pos as int) matches Some(q) && q.0 == p.0@ && q.1
                == p.1 as int,
            None => spec_read_text(b@, pos as int) is None,
        },
{
    let n = match read_u64(b, pos) {
        Some(n) => n,
        None => {
            return None;
        },
    };
    let mut s = String::new();
    let mut cp: usize = n.1;
    let mut j: u64 = 0;
    let ghost sb = b@;
    while j < n.0
        invariant
            sb == b@,
            j <= n.0,
            cp <= sb.len(),
            spec_read_u64(sb, pos as int) == Some((n.0, n.1 as int)),
            spec_read_chars(sb, n.1 as int, n.0 as nat) == (match spec_read_chars(
                sb,
                cp as int,
                (n.0 - j) as nat,
            ) {
                None => None::<(Seq<char>, int)>,
                Some(q) => Some((s@ + q.0, q.1)),
            }),
        decreases n.0 - j,
    {
        let c = match read_u32(b, cp) {
            Some(c) => c,
            None => {
                proof {
                    assert(spec_read_chars(sb, cp as int, (n.0 - j) as nat) is None);
                }
                return None;
            },
        };
        let ch = match char::from_u32(c.0) {
            Some(ch) => ch,
            None => {
                proof {
                    assert(spec_read_chars(sb, cp as int, (n.0 - j) as nat) is None);
                }
                return None;
            },
        };
        let ghost s_old = s@;
        push_char(&mut s, ch);
        proof {
            assert forall|q0: Seq<char>| true implies s_old + (seq![ch] + q0) =~= s@ + q0 by {
                assert(s@ == s_old.push(ch));
            }
        }
        cp = c.1;
        j = j + 1;
    }
    proof {
        assert(spec_read_chars(sb, cp as int, 0nat) == Some((Seq::<char>::empty(), cp as int)));
        assert(s@ + Seq::<char>::empty() =~= s@);
    }
    Some((s, cp))
}

/// Decodes one frame at `pos`, returning exactly what the specification
/// decoder computes there, or nothing where it rejects the bytes.
pub fn decode_frame(b: &Vec<u8>, pos: usize) -> (r: Option<(CallFrame, usize)>)
    ensures
        match r {
            Some(p) => spec_decode_frame(b@, pos as int) == Some(
                (frame_view(p.0), p.1 as int),
            ),
            None => spec_decode_frame(b@, pos as int) is None,
        },
    decreases b@.len() - pos,
{
    if pos >= b.len() {
        return None;
    }
    let from = match read_u64(b, pos) {
        Some(x) => x,
        None => {
            return None;
        },
    };
    let to = match read_u64(b, from.1) {
        Some(x) => x,
        None => {
            return None;
        },
    };
    let method = match read_u64(b, to.1) {
        Some(x) => x,
        None => {
            return None;
        },
    };
    let params = match read_chunk(b, method.1) {
        Some(x) => x,
        None => {
            return None;
        },
    };
    let value = match read_u128(b, params.1) {
        Some(x) => x,
        None => {
            return None;
        },
    };
    let exit = match read_u32(b, value.1) {
        Some(x) => x,
        None => {
            return None;
        },
    };
    let rdata = match read_chunk(b, exit.1) {
        Some(x) => x,
        None => {
            return None;
        },
    };
    let error = match read_text(b, rdata.1) {
        Some(x) => x,
        None => {
            return None;
        },
    };
    let count = match read_u64(b, error.1) {
        Some(x) => x,
        None => {
            return None;
        },
    };
    if count.1 <= pos {
        return None;
    }
    let ghost sb = b@;
    let ghost built_msg = SpecMessage {
        from: from.0,
        to: to.0,
        method: method.0,
        params: params.0@,
        value: value.0,
    };
    let ghost built_receipt = SpecReceipt { exit_code: exit.0, return_data: rdata.0@ };
    proof {
        assert(spec_decode_frame(sb, pos as int) == (match spec_decode_forest(
            sb,
            count.1 as int,
            count.0 as nat,
        ) {
            None => None::<(SpecFrame, int)>,
            Some(q) => Some(
                (
                    SpecFrame {
                        msg: built_msg,
                        receipt: built_receipt,
                        error: error.0@,
                        children: q.0,
                    },
                    q.1,
                ),
            ),
        }));
    }
    let mut children: Vec<CallFrame> = Vec::new();
    let mut cp: usize = count.1;
    let mut j: u64 = 0;
    while j < count.0
        invariant
            sb == b@,
            j <= count.0,
            pos < cp <= sb.len(),
            spec_decode_frame(sb, pos as int) == (match spec_decode_forest(
                sb,
                count.1 as int,
                count.0 as nat,
            ) {
                None => None::<(SpecFrame, int)>,
                Some(q) => Some(
                    (
                        SpecFrame {
                            msg: built_msg,
                            receipt: built_receipt,
                            error: error.0@,
                            children: q.0,
                        },
                        q.1,
                    ),
                ),
            }),
            spec_decode_forest(sb, count.1 as int, count.0 as nat) == (match spec_decode_forest(
                sb,
                cp as int,
                (count.0 - j) as nat,
            ) {
                None => None::<(Seq<SpecFrame>, int)>,
                Some(q) => Some((frames_view(children@) + q.0, q.1)),
            }),
        decreases count.0 - j,
    {
        if cp >= b.len() {
            return None;
        }
        let child = match decode_frame(b, cp) {
            Some(c) => c,
            None => {
                return None;
            },
        };
        if child.1 <= cp || child.1 > b.len() {
            return None;
        }
        let ghost ch_old = children@;
        children.push(child.0);
        proof {
            lemma_frames_view_push(ch_old, child.0);
            assert forall|q0: Seq<SpecFrame>| true implies frames_view(ch_old) + (seq![
                frame_view(child.0),
            ] + q0) =~= frames_view(children@) + q0 by {
                assert(frames_view(children@) == frames_view(ch_old).push(frame_view(child.0)));
            }
        }
        cp = child.1;
        j = j + 1;
    }
    proof {
        assert(spec_decode_forest(sb, cp as int, 0nat) == Some(
            (Seq::<SpecFrame>::empty(), cp as int),
        ));
        assert(frames_view(children@) + Seq::<SpecFrame>::empty() =~= frames_view(children@));
    }
    let frame = CallFrame {
        msg: MessageData {
            from: from.0,
            to: to.0,
            method: method.0,
            params: params.0,
            value: value.0,
        },
        receipt: ReceiptData { exit_code: exit.0, return_data: rdata.0 },
        error: error.0,
        children,
    };
    Some((frame, cp))
}

} // verus!
