//! UTF-8 decoding and encoding: the byte-level decoder specification, the
//! restartable decoder, and the scalar-to-bytes encoder.

use vstd::prelude::*;

use crate::state::MBState;

verus! {

/// A Unicode scalar value: at most 0x10FFFF and not a surrogate.
pub open spec fn is_scalar(c: u32) -> bool {
    c <= 0x10FFFF && !(0xD800 <= c <= 0xDFFF)
}

/// Length in bytes of the canonical UTF-8 form of `c`.
pub open spec fn utf8_len(c: u32) -> int {
    if c <= 0x7F {
        1
    } else if c <= 0x7FF {
        2
    } else if c <= 0xFFFF {
        3
    } else {
        4
    }
}

/// Canonical UTF-8 byte form of the scalar `c`: one byte `0xxxxxxx`, or a
/// lead byte `110xxxxx` / `1110xxxx` / `11110xxx` followed by continuation
/// bytes `10xxxxxx` carrying six payload bits each.
pub open spec fn utf8_bytes(c: u32) -> Seq<u8> {
    if c <= 0x7F {
        seq![c as u8]
    } else if c <= 0x7FF {
        seq![0xC0u8 | ((c >> 6) as u8), 0x80u8 | ((c & 0x3F) as u8)]
    } else if c <= 0xFFFF {
        seq![
            0xE0u8 | ((c >> 12) as u8),
            0x80u8 | (((c >> 6) & 0x3F) as u8),
            0x80u8 | ((c & 0x3F) as u8),
        ]
    } else {
        seq![
            0xF0u8 | ((c >> 18) as u8),
            0x80u8 | (((c >> 12) & 0x3F) as u8),
            0x80u8 | (((c >> 6) & 0x3F) as u8),
            0x80u8 | ((c & 0x3F) as u8),
        ]
    }
}

/// Outcome of running the UTF-8 decoder over some bytes, starting from a
/// given decoder state.
pub ghost enum DecOutcome {
    /// A scalar was completed after consuming the bytes up to (excluding)
    /// index `consumed`.
    Complete { scalar: u32, consumed: int },
    /// The input ended mid-sequence; the fields are the decoder state to be
    /// carried into the next call.
    Partial { bytesleft: int, partial: u32, lowerbound: u32 },
    /// The bytes are not valid UTF-8 (bad lead or continuation byte, overlong
    /// form, surrogate, or value above 0x10FFFF).
    Bad,
}

/// The UTF-8 decoder as a function: starting in decoder state `(bytesleft,
/// partial, lowerbound)`, consume bytes of `s` from index `off` on, one at a
/// time, until a scalar is complete, the input is exhausted, or a byte is
/// invalid.  A completed multi-byte scalar must be at least `lowerbound`
/// (rejecting overlong forms), must not be a surrogate, and must not exceed
/// 0x10FFFF.
pub open spec fn decode_from(
    bytesleft: int,
    partial: u32,
    lowerbound: u32,
    s: Seq<u8>,
    off: int,
) -> DecOutcome
    decreases s.len() - off,
{
    if off < 0 || off >= s.len() {
        DecOutcome::Partial { bytesleft, partial, lowerbound }
    } else if bytesleft == 0 {
        let b = s[off];
        if b & 0x80 == 0 {
            DecOutcome::Complete { scalar: b as u32, consumed: off + 1 }
        } else if b & 0xE0 == 0xC0 {
            decode_from(1, (b & 0x1F) as u32, 0x80, s, off + 1)
        } else if b & 0xF0 == 0xE0 {
            decode_from(2, (b & 0x0F) as u32, 0x800, s, off + 1)
        } else if b & 0xF8 == 0xF0 {
            decode_from(3, (b & 0x07) as u32, 0x10000, s, off + 1)
        } else {
            DecOutcome::Bad
        }
    } else {
        let b = s[off];
        if b & 0xC0 != 0x80 {
            DecOutcome::Bad
        } else {
            let folded = (partial << 6) | ((b & 0x3F) as u32);
            if bytesleft == 1 {
                if folded < lowerbound || (0xD800 <= folded <= 0xDFFF) || folded > 0x10FFFF {
                    DecOutcome::Bad
                } else {
                    DecOutcome::Complete { scalar: folded, consumed: off + 1 }
                }
            } else {
                decode_from(bytesleft - 1, folded, lowerbound, s, off + 1)
            }
        }
    }
}

/// The same outcome with the consumed count moved forward by `k` bytes of an
/// earlier chunk; outcomes without a count are unchanged.
pub open spec fn shift_consumed(d: DecOutcome, k: int) -> DecOutcome {
    match d {
        DecOutcome::Complete { scalar, consumed } => DecOutcome::Complete {
            scalar,
            consumed: consumed + k,
        },
        _ => d,
    }
}

/// Decoding within the suffix `b` of `a + b` proceeds exactly as decoding `b`
/// alone, with every consumed count offset by `a`'s length.
proof fn lemma_decode_shift(bl: int, p: u32, lb: u32, a: Seq<u8>, b: Seq<u8>, j: int)
    requires
        0 <= j,
    ensures
        decode_from(bl, p, lb, a + b, a.len() + j) == shift_consumed(
            decode_from(bl, p, lb, b, j),
            a.len() as int,
        ),
    decreases b.len() - j,
{
    if j >= b.len() {
        // both runs are out of input and save the same state
    } else {
        let byte: u8 = b[j];
        assert((a + b)[a.len() + j] == byte);
        if bl == 0 {
            if byte & 0x80 == 0 {
            } else if byte & 0xE0 == 0xC0 {
                lemma_decode_shift(1, (byte & 0x1F) as u32, 0x80, a, b, j + 1);
            } else if byte & 0xF0 == 0xE0 {
                lemma_decode_shift(2, (byte & 0x0F) as u32, 0x800, a, b, j + 1);
            } else if byte & 0xF8 == 0xF0 {
                lemma_decode_shift(3, (byte & 0x07) as u32, 0x10000, a, b, j + 1);
            }
        } else {
            if byte & 0xC0 == 0x80 && bl != 1 {
                lemma_decode_shift(
                    bl - 1,
                    (p << 6) | ((byte & 0x3F) as u32),
                    lb,
                    a,
                    b,
                    j + 1,
                );
            }
        }
    }
}

/// Chunk invariance of the decoder: when a first chunk `a` ends mid-sequence,
/// feeding the remainder `b` from the saved state gives the same scalar (or
/// the same failure, or the same saved state) as feeding `a + b` in one call,
/// with the consumed counts adding up.
pub proof fn lemma_chunk_invariance(bl: int, p: u32, lb: u32, a: Seq<u8>, b: Seq<u8>)
    ensures
        (decode_from(bl, p, lb, a, 0) matches DecOutcome::Partial {
            bytesleft: bl2,
            partial: p2,
            lowerbound: lb2,
        } ==> decode_from(bl, p, lb, a + b, 0) == shift_consumed(
            decode_from(bl2, p2, lb2, b, 0),
            a.len() as int,
        )),
{
    lemma_chunk_invariance_rec(bl, p, lb, a, b, 0);
}

/// Induction step for [`lemma_chunk_invariance`], generalized over the
/// position reached within the first chunk.
proof fn lemma_chunk_invariance_rec(bl: int, p: u32, lb: u32, a: Seq<u8>, b: Seq<u8>, off: int)
    requires
        0 <= off <= a.len(),
    ensures
        (decode_from(bl, p, lb, a, off) matches DecOutcome::Partial {
            bytesleft: bl2,
            partial: p2,
            lowerbound: lb2,
        } ==> decode_from(bl, p, lb, a + b, off) == shift_consumed(
            decode_from(bl2, p2, lb2, b, 0),
            a.len() as int,
        )),
    decreases a.len() - off,
{
    if off >= a.len() {
        lemma_decode_shift(bl, p, lb, a, b, 0);
    } else {
        let byte: u8 = a[off];
        assert((a + b)[off] == byte);
        if bl == 0 {
            if byte & 0x80 == 0 {
            } else if byte & 0xE0 == 0xC0 {
                lemma_chunk_invariance_rec(1, (byte & 0x1F) as u32, 0x80, a, b, off + 1);
            } else if byte & 0xF0 == 0xE0 {
                lemma_chunk_invariance_rec(2, (byte & 0x0F) as u32, 0x800, a, b, off + 1);
            } else if byte & 0xF8 == 0xF0 {
                lemma_chunk_invariance_rec(3, (byte & 0x07) as u32, 0x10000, a, b, off + 1);
            }
        } else {
            if byte & 0xC0 == 0x80 && bl != 1 {
                lemma_chunk_invariance_rec(
                    bl - 1,
                    (p << 6) | ((byte & 0x3F) as u32),
                    lb,
                    a,
                    b,
                    off + 1,
                );
            }
        }
    }
}

/// Resuming mid-sequence, or running the decoder over a non-empty remainder,
/// never leaves a saved state with no bytes outstanding: an interrupted
/// sequence always awaits at least one continuation byte.
pub proof fn lemma_decode_partial(
    bytesleft: int,
    partial: u32,
    lowerbound: u32,
    s: Seq<u8>,
    off: int,
)
    requires
        bytesleft >= 1 || (bytesleft == 0 && 0 <= off < s.len()),
    ensures
        (decode_from(bytesleft, partial, lowerbound, s, off) matches DecOutcome::Partial {
            bytesleft: bl2,
            ..
        } ==> bl2 >= 1),
    decreases s.len() - off,
{
    if off < 0 || off >= s.len() {
        // the result is Partial with the given bytesleft, which is >= 1 here
    } else if bytesleft == 0 {
        let b: u8 = s[off];
        if b & 0x80 == 0 {
        } else if b & 0xE0 == 0xC0 {
            lemma_decode_partial(1, (b & 0x1F) as u32, 0x80, s, off + 1);
        } else if b & 0xF0 == 0xE0 {
            lemma_decode_partial(2, (b & 0x0F) as u32, 0x800, s, off + 1);
        } else if b & 0xF8 == 0xF0 {
            lemma_decode_partial(3, (b & 0x07) as u32, 0x10000, s, off + 1);
        }
    } else {
        let b: u8 = s[off];
        if b & 0xC0 == 0x80 && bytesleft != 1 {
            lemma_decode_partial(
                bytesleft - 1,
                (partial << 6) | ((b & 0x3F) as u32),
                lowerbound,
                s,
                off + 1,
            );
        }
    }
}

/// Round trip: decoding the canonical UTF-8 form of any scalar, from the
/// initial decoder state, completes with exactly that scalar and consumes
/// exactly its encoded length.
pub proof fn lemma_utf8_round_trip(c: u32)
    requires
        is_scalar(c),
    ensures
        decode_from(0, 0, 0, utf8_bytes(c), 0) == (DecOutcome::Complete {
            scalar: c,
            consumed: utf8_len(c),
        }),
{
    let s = utf8_bytes(c);
    if c <= 0x7F {
        assert((c as u8) & 0x80 == 0 && (c as u8) as u32 == c) by (bit_vector)
            requires
                c <= 0x7Fu32,
        ;
    } else if c <= 0x7FF {
        let b0: u8 = 0xC0u8 | ((c >> 6) as u8);
        let b1: u8 = 0x80u8 | ((c & 0x3F) as u8);
        assert(b0 & 0x80 != 0 && b0 & 0xE0 == 0xC0 && b1 & 0xC0 == 0x80 && ((((b0
            & 0x1F) as u32) << 6) | ((b1 & 0x3F) as u32)) == c) by (bit_vector)
            requires
                0x80u32 <= c <= 0x7FFu32,
                b0 == 0xC0u8 | ((c >> 6) as u8),
                b1 == 0x80u8 | ((c & 0x3F) as u8),
        ;
        assert(s[0] == b0 && s[1] == b1);
        assert(decode_from(0, 0, 0, s, 0) == decode_from(1, (b0 & 0x1F) as u32, 0x80, s, 1));
    } else if c <= 0xFFFF {
        let b0: u8 = 0xE0u8 | ((c >> 12) as u8);
        let b1: u8 = 0x80u8 | (((c >> 6) & 0x3F) as u8);
        let b2: u8 = 0x80u8 | ((c & 0x3F) as u8);
        let p1: u32 = (((b0 & 0x0F) as u32) << 6) | ((b1 & 0x3F) as u32);
        assert(b0 & 0x80 != 0 && b0 & 0xE0 != 0xC0 && b0 & 0xF0 == 0xE0 && b1 & 0xC0 == 0x80 && b2
            & 0xC0 == 0x80 && (((((b0 & 0x0F) as u32) << 6) | ((b1 & 0x3F) as u32)) << 6) | ((b2
            & 0x3F) as u32) == c) by (bit_vector)
            requires
                0x800u32 <= c <= 0xFFFFu32,
                b0 == 0xE0u8 | ((c >> 12) as u8),
                b1 == 0x80u8 | (((c >> 6) & 0x3F) as u8),
                b2 == 0x80u8 | ((c & 0x3F) as u8),
        ;
        assert(s[0] == b0 && s[1] == b1 && s[2] == b2);
        assert(decode_from(0, 0, 0, s, 0) == decode_from(2, (b0 & 0x0F) as u32, 0x800, s, 1));
        assert(decode_from(2, (b0 & 0x0F) as u32, 0x800, s, 1) == decode_from(1, p1, 0x800, s, 2));
    } else {
        let b0: u8 = 0xF0u8 | ((c >> 18) as u8);
        let b1: u8 = 0x80u8 | (((c >> 12) & 0x3F) as u8);
        let b2: u8 = 0x80u8 | (((c >> 6) & 0x3F) as u8);
        let b3: u8 = 0x80u8 | ((c & 0x3F) as u8);
        let p1: u32 = (((b0 & 0x07) as u32) << 6) | ((b1 & 0x3F) as u32);
        let p2: u32 = (p1 << 6) | ((b2 & 0x3F) as u32);
        assert(b0 & 0x80 != 0 && b0 & 0xE0 != 0xC0 && b0 & 0xF0 != 0xE0 && b0 & 0xF8 == 0xF0 && b1
            & 0xC0 == 0x80 && b2 & 0xC0 == 0x80 && b3 & 0xC0 == 0x80 && ((((((((b0
            & 0x07) as u32) << 6) | ((b1 & 0x3F) as u32)) << 6) | ((b2 & 0x3F) as u32)) << 6) | ((
        b3 & 0x3F) as u32)) == c) by (bit_vector)
            requires
                0x10000u32 <= c <= 0x10FFFFu32,
                b0 == 0xF0u8 | ((c >> 18) as u8),
                b1 == 0x80u8 | (((c >> 12) & 0x3F) as u8),
                b2 == 0x80u8 | (((c >> 6) & 0x3F) as u8),
                b3 == 0x80u8 | ((c & 0x3F) as u8),
        ;
        assert(s[0] == b0 && s[1] == b1 && s[2] == b2 && s[3] == b3);
        assert(decode_from(0, 0, 0, s, 0) == decode_from(3, (b0 & 0x07) as u32, 0x10000, s, 1));
        assert(decode_from(3, (b0 & 0x07) as u32, 0x10000, s, 1) == decode_from(
            2,
            p1,
            0x10000,
            s,
            2,
        ));
        assert(decode_from(2, p1, 0x10000, s, 2) == decode_from(1, p2, 0x10000, s, 3));
    }
}

/// Decode one scalar from the front of `s`, resuming any sequence left
/// incomplete in `ps`.  On completion the scalar is stored in `pc32`, the
/// state is reset, and the count of bytes consumed from `s` is returned.  A
/// fatal error returns -1 and resets the state; exhausted input returns -2
/// and saves the decoder state for the next call.
pub fn mbtoc32(pc32: &mut u32, s: &[u8], ps: &mut MBState) -> (r: isize)
    requires
        old(ps).wf(),
    ensures
        final(ps).wf(),
        (match decode_from(old(ps).bytesleft as int, old(ps).partial, old(ps).lowerbound, s@, 0) {
            DecOutcome::Complete { scalar, consumed } => r == consumed && *final(pc32) == scalar
                && final(ps).is_reset() && is_scalar(scalar) && 1 <= consumed <= s@.len(),
            DecOutcome::Partial { bytesleft, partial, lowerbound } => r == -2 && *final(pc32)
                == *old(pc32) && final(ps).bytesleft == bytesleft && final(ps).partial == partial
                && final(ps).lowerbound == lowerbound && final(ps).pending == old(ps).pending
                && final(ps).surrogate == old(ps).surrogate,
            DecOutcome::Bad => r == -1 && *final(pc32) == *old(pc32) && final(ps).is_reset(),
        }),
{
    let n: usize = s.len();
    if n < 1 {
        return -2;
    }
    let mut bytesleft: usize = ps.bytesleft;
    let mut partial: u32 = ps.partial;
    let mut lowerbound: u32 = ps.lowerbound;
    let mut offset: usize = 0;

    if bytesleft == 0 {
        let b: u8 = s[0];
        if b & 0x80 == 0 {
            proof {
                assert(b & 0x80 == 0 ==> b < 0x80) by (bit_vector);
            }
            *pc32 = b as u32;
            ps.reset();
            return 1;
        } else if b & 0xE0 == 0xC0 {
            bytesleft = 1;
            partial = (b & 0x1F) as u32;
            lowerbound = 0x80;
            offset = 1;
        } else if b & 0xF0 == 0xE0 {
            bytesleft = 2;
            partial = (b & 0x0F) as u32;
            lowerbound = 0x800;
            offset = 1;
        } else if b & 0xF8 == 0xF0 {
            bytesleft = 3;
            partial = (b & 0x07) as u32;
            lowerbound = 0x10000;
            offset = 1;
        } else {
            ps.reset();
            return -1;
        }
    }

    while offset < n
        invariant
            n == s@.len(),
            offset <= n,
            1 <= bytesleft <= 3,
            offset + bytesleft <= 4,
            *ps == *old(ps),
            *pc32 == *old(pc32),
            old(ps).wf(),
            decode_from(old(ps).bytesleft as int, old(ps).partial, old(ps).lowerbound, s@, 0)
                == decode_from(bytesleft as int, partial, lowerbound, s@, offset as int),
        decreases n - offset,
    {
        let b: u8 = s[offset];
        if b & 0xC0 != 0x80 {
            ps.reset();
            return -1;
        }
        partial = (partial << 6) | ((b & 0x3F) as u32);
        offset = offset + 1;
        bytesleft = bytesleft - 1;
        if bytesleft == 0 {
            if partial < lowerbound || (0xD800 <= partial && partial <= 0xDFFF) || partial
                > 0x10FFFF {
                ps.reset();
                return -1;
            }
            *pc32 = partial;
            ps.reset();
            return offset as isize;
        }
    }

    ps.bytesleft = bytesleft;
    ps.lowerbound = lowerbound;
    ps.partial = partial;
    -2
}

/// Encode one scalar into its canonical UTF-8 byte form; a surrogate or a
/// value above 0x10FFFF is rejected.
pub fn c32tomb(c32: u32) -> (r: Option<Vec<u8>>)
    ensures
        is_scalar(c32) ==> (r matches Some(v) && v@ == utf8_bytes(c32) && v@.len() == utf8_len(
            c32,
        )),
        !is_scalar(c32) ==> r is None,
{
    let mut v: Vec<u8> = Vec::new();
    if c32 <= 0x7F {
        v.push(c32 as u8);
        proof {
            assert(v@ =~= utf8_bytes(c32));
        }
        Some(v)
    } else if c32 <= 0x7FF {
        v.push(0xC0u8 | ((c32 >> 6) as u8));
        v.push(0x80u8 | ((c32 & 0x3F) as u8));
        proof {
            assert(v@ =~= utf8_bytes(c32));
        }
        Some(v)
    } else if c32 <= 0xFFFF {
        if 0xD800 <= c32 && c32 <= 0xDFFF {
            return None;
        }
        v.push(0xE0u8 | ((c32 >> 12) as u8));
        v.push(0x80u8 | (((c32 >> 6) & 0x3F) as u8));
        v.push(0x80u8 | ((c32 & 0x3F) as u8));
        proof {
            assert(v@ =~= utf8_bytes(c32));
        }
        Some(v)
    } else if c32 <= 0x10FFFF {
        v.push(0xF0u8 | ((c32 >> 18) as u8));
        v.push(0x80u8 | (((c32 >> 12) & 0x3F) as u8));
        v.push(0x80u8 | (((c32 >> 6) & 0x3F) as u8));
        v.push(0x80u8 | ((c32 & 0x3F) as u8));
        proof {
            assert(v@ =~= utf8_bytes(c32));
        }
        Some(v)
    } else {
        None
    }
}

} // verus!
