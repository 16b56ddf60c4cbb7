//! The public conversion operations: each consumes or produces one unit (or
//! one scalar) per call, carrying partial progress in an [`MBState`].

use vstd::prelude::*;

use crate::state::MBState;
use crate::utf16::{
    combine_surrogates, high_surrogate, is_low_surrogate, low_surrogate, utf16_combine,
    utf16_split,
};
use crate::utf8::{
    c32tomb, decode_from, is_scalar, lemma_decode_partial, mbtoc32, utf8_bytes, utf8_len,
    DecOutcome,
};

verus! {

/// Outcome of one conversion call, mirroring the result-code convention of
/// the operations: a decoded null terminator, a count of units consumed or
/// produced, a unit replayed from queued output without consuming input, a
/// fatal illegal sequence, or a request for more input.
#[derive(Clone, Copy, PartialEq, Eq, Structural, Debug)]
pub enum Status {
    /// A null terminator was decoded: nothing further is consumed or produced.
    Terminator,
    /// The call consumed or produced this many units.
    Units(usize),
    /// A unit queued by an earlier call was handed out; no new input was
    /// consumed, so the caller must present the same input again.
    Replayed,
    /// The input is not a legal sequence; the state has been reset.
    Illegal,
    /// The input ended mid-sequence; the state keeps the partial progress.
    Incomplete,
}

/// The decoder outcome a decode operation acts on, as a function of the state
/// it was entered with and its input bytes.
pub open spec fn entry_outcome(prev: MBState, s: Seq<u8>) -> DecOutcome {
    decode_from(prev.bytesleft as int, prev.partial, prev.lowerbound, s, 0)
}

/// Decode the next scalar from the bytes of `s`.  Empty input reports the
/// terminator and leaves the state untouched; otherwise the UTF-8 decoder
/// runs from the saved state, and a completed scalar (zero meaning the
/// terminator) resets the state.
pub fn bytes_to_c32(s: &[u8], ps: &mut MBState) -> (r: (Status, u32))
    requires
        old(ps).wf(),
    ensures
        final(ps).wf(),
        ({
            let fs = *final(ps);
            if s@.len() == 0 {
                r == (Status::Terminator, 0u32) && fs == *old(ps)
            } else {
                match entry_outcome(*old(ps), s@) {
                    DecOutcome::Complete { scalar, consumed } => if scalar == 0 {
                        r == (Status::Terminator, 0u32) && fs.is_reset()
                    } else {
                        r == (Status::Units(consumed as usize), scalar) && fs.is_reset()
                            && is_scalar(scalar)
                    },
                    DecOutcome::Partial { bytesleft, partial, lowerbound } => {
                        r == (Status::Incomplete, 0u32) && fs.saved_partial(
                            *old(ps),
                            bytesleft,
                            partial,
                            lowerbound,
                        ) && !fs.spec_is_initial()
                    },
                    DecOutcome::Bad => r == (Status::Illegal, 0u32) && fs.is_reset(),
                }
            }
        }),
{
    if s.len() == 0 {
        return (Status::Terminator, 0);
    }
    let mut c32: u32 = 0;
    let l: isize = mbtoc32(&mut c32, s, ps);
    if l == -1 {
        return (Status::Illegal, 0);
    }
    if l == -2 {
        proof {
            lemma_decode_partial(
                old(ps).bytesleft as int,
                old(ps).partial,
                old(ps).lowerbound,
                s@,
                0,
            );
        }
        return (Status::Incomplete, 0);
    }
    if c32 == 0 {
        return (Status::Terminator, 0);
    }
    (Status::Units(l as usize), c32)
}

/// Decode the next scalar from the bytes of `s` and hand it out as 16-bit
/// units.  A unit queued by the previous call (the low surrogate of a pair)
/// is replayed first, without consuming input; a scalar above 0xFFFF yields
/// its high surrogate now and queues the low surrogate for the next call.
pub fn bytes_to_c16(s: &[u8], ps: &mut MBState) -> (r: (Status, u16))
    requires
        old(ps).wf(),
    ensures
        final(ps).wf(),
        ({
            let fs = *final(ps);
            if old(ps).surrogate != 0 {
                r == (Status::Replayed, old(ps).surrogate) && fs.with_surrogate(*old(ps), 0)
            } else if s@.len() == 0 {
                r == (Status::Terminator, 0u16) && fs == *old(ps)
            } else {
                match entry_outcome(*old(ps), s@) {
                    DecOutcome::Complete { scalar, consumed } => if scalar == 0 {
                        r == (Status::Terminator, 0u16) && fs.is_reset()
                    } else if scalar < 0x10000 {
                        r == (Status::Units(consumed as usize), scalar as u16) && fs.is_reset()
                    } else {
                        r == (Status::Units(consumed as usize), high_surrogate(scalar))
                            && fs.reset_with_surrogate(low_surrogate(scalar)) && is_low_surrogate(
                            low_surrogate(scalar),
                        )
                    },
                    DecOutcome::Partial { bytesleft, partial, lowerbound } => {
                        r == (Status::Incomplete, 0u16) && fs.saved_partial(
                            *old(ps),
                            bytesleft,
                            partial,
                            lowerbound,
                        ) && !fs.spec_is_initial()
                    },
                    DecOutcome::Bad => r == (Status::Illegal, 0u16) && fs.is_reset(),
                }
            }
        }),
{
    if ps.surrogate != 0 {
        let unit: u16 = ps.surrogate;
        ps.surrogate = 0;
        return (Status::Replayed, unit);
    }
    if s.len() == 0 {
        return (Status::Terminator, 0);
    }
    let mut c32: u32 = 0;
    let l: isize = mbtoc32(&mut c32, s, ps);
    if l == -1 {
        return (Status::Illegal, 0);
    }
    if l == -2 {
        proof {
            lemma_decode_partial(
                old(ps).bytesleft as int,
                old(ps).partial,
                old(ps).lowerbound,
                s@,
                0,
            );
        }
        return (Status::Incomplete, 0);
    }
    if c32 == 0 {
        return (Status::Terminator, 0);
    }
    if c32 < 0x10000 {
        return (Status::Units(l as usize), c32 as u16);
    }
    let units: (u16, u16) = utf16_split(c32);
    ps.surrogate = units.1;
    (Status::Units(l as usize), units.0)
}

/// Decode the next scalar from the bytes of `s` and hand it back re-encoded
/// as UTF-8, one byte per call.  Queued bytes from the previous scalar are
/// drained first, without consuming input; a freshly completed scalar yields
/// its first byte now and queues the rest.
pub fn bytes_to_c8(s: &[u8], ps: &mut MBState) -> (r: (Status, u8))
    requires
        old(ps).wf(),
    ensures
        final(ps).wf(),
        ({
            let fs = *final(ps);
            if old(ps).pending@.len() > 0 {
                r == (Status::Replayed, old(ps).pending@[0]) && fs.with_pending(
                    *old(ps),
                    old(ps).pending@.skip(1),
                )
            } else if s@.len() == 0 {
                r == (Status::Terminator, 0u8) && fs == *old(ps)
            } else {
                match entry_outcome(*old(ps), s@) {
                    DecOutcome::Complete { scalar, consumed } => if scalar == 0 {
                        r == (Status::Terminator, 0u8) && fs.is_reset()
                    } else {
                        r == (Status::Units(consumed as usize), utf8_bytes(scalar)[0])
                            && fs.reset_with_pending(utf8_bytes(scalar).skip(1)) && is_scalar(
                            scalar,
                        )
                    },
                    DecOutcome::Partial { bytesleft, partial, lowerbound } => {
                        r == (Status::Incomplete, 0u8) && fs.saved_partial(
                            *old(ps),
                            bytesleft,
                            partial,
                            lowerbound,
                        ) && !fs.spec_is_initial()
                    },
                    DecOutcome::Bad => r == (Status::Illegal, 0u8) && fs.is_reset(),
                }
            }
        }),
{
    if ps.pending.len() > 0 {
        let b: u8 = ps.pending.remove(0);
        proof {
            assert(ps.pending@ =~= old(ps).pending@.skip(1));
        }
        return (Status::Replayed, b);
    }
    if s.len() == 0 {
        return (Status::Terminator, 0);
    }
    let mut c32: u32 = 0;
    let l: isize = mbtoc32(&mut c32, s, ps);
    if l == -1 {
        return (Status::Illegal, 0);
    }
    if l == -2 {
        proof {
            lemma_decode_partial(
                old(ps).bytesleft as int,
                old(ps).partial,
                old(ps).lowerbound,
                s@,
                0,
            );
        }
        return (Status::Incomplete, 0);
    }
    if c32 == 0 {
        return (Status::Terminator, 0);
    }
    let mut bytes: Vec<u8> = match c32tomb(c32) {
        Some(v) => v,
        None => {
            return (Status::Illegal, 0);  // unreachable: the scalar was validated
        },
    };
    let first: u8 = bytes.remove(0);
    proof {
        assert(bytes@ =~= utf8_bytes(c32).skip(1));
    }
    ps.pending = bytes;
    (Status::Units(l as usize), first)
}

/// Encode one scalar into UTF-8 bytes.  The state is reset first; an invalid
/// scalar (a surrogate or a value above 0x10FFFF) is rejected.
pub fn c32_to_bytes(c32: u32, ps: &mut MBState) -> (r: (Status, Vec<u8>))
    requires
        old(ps).wf(),
    ensures
        final(ps).wf(),
        final(ps).is_reset(),
        is_scalar(c32) ==> r.0 == Status::Units(utf8_len(c32) as usize) && r.1@ == utf8_bytes(c32),
        !is_scalar(c32) ==> r.0 == Status::Illegal && r.1@ == Seq::<u8>::empty(),
{
    ps.reset();
    match c32tomb(c32) {
        Some(v) => (Status::Units(v.len()), v),
        None => (Status::Illegal, Vec::new()),
    }
}

/// Feed one 16-bit unit and hand back UTF-8 bytes.  A high surrogate is held
/// in the state awaiting its low half, which must arrive on the very next
/// call; any other unit while one is held, or a lone low surrogate, is fatal.
pub fn c16_to_bytes(c16: u16, ps: &mut MBState) -> (r: (Status, Vec<u8>))
    requires
        old(ps).wf(),
    ensures
        final(ps).wf(),
        ({
            let fs = *final(ps);
            if old(ps).surrogate != 0 {
                if 0xD800 <= old(ps).surrogate <= 0xDBFF && 0xDC00 <= c16 <= 0xDFFF {
                    let scalar = combine_surrogates(old(ps).surrogate, c16);
                    r.0 == Status::Units(utf8_len(scalar) as usize) && r.1@ == utf8_bytes(scalar)
                        && fs.is_reset() && is_scalar(scalar)
                } else {
                    r.0 == Status::Illegal && r.1@ == Seq::<u8>::empty() && fs.is_reset()
                }
            } else if 0xD800 <= c16 <= 0xDBFF {
                r.0 == Status::Incomplete && r.1@ == Seq::<u8>::empty() && fs.with_surrogate(
                    *old(ps),
                    c16,
                ) && !fs.spec_is_initial()
            } else if 0xDC00 <= c16 <= 0xDFFF {
                r.0 == Status::Illegal && r.1@ == Seq::<u8>::empty() && fs.is_reset()
            } else {
                r.0 == Status::Units(utf8_len(c16 as u32) as usize) && r.1@ == utf8_bytes(
                    c16 as u32,
                ) && fs.is_reset()
            }
        }),
{
    if ps.surrogate != 0 {
        let stored: u16 = ps.surrogate;
        if 0xD800 <= stored && stored <= 0xDBFF && 0xDC00 <= c16 && c16 <= 0xDFFF {
            let c32: u32 = utf16_combine(stored, c16);
            ps.reset();
            match c32tomb(c32) {
                Some(v) => return (Status::Units(v.len()), v),
                None => return (Status::Illegal, Vec::new()),  // unreachable
            }
        }
        ps.reset();
        return (Status::Illegal, Vec::new());
    }
    if 0xD800 <= c16 && c16 <= 0xDBFF {
        ps.surrogate = c16;
        return (Status::Incomplete, Vec::new());
    }
    if 0xDC00 <= c16 && c16 <= 0xDFFF {
        ps.reset();
        return (Status::Illegal, Vec::new());
    }
    ps.reset();
    match c32tomb(c16 as u32) {
        Some(v) => (Status::Units(v.len()), v),
        None => (Status::Illegal, Vec::new()),  // unreachable
    }
}

/// Feed one byte of a UTF-8 stream and hand it back re-encoded.  Lead and
/// continuation bytes of an unfinished sequence are absorbed into the state;
/// the byte completing a scalar yields that scalar's whole canonical form.
pub fn c8_to_bytes(c8: u8, ps: &mut MBState) -> (r: (Status, Vec<u8>))
    requires
        old(ps).wf(),
    ensures
        final(ps).wf(),
        ({
            let fs = *final(ps);
            match entry_outcome(*old(ps), seq![c8]) {
                DecOutcome::Complete { scalar, .. } => {
                    r.0 == Status::Units(utf8_len(scalar) as usize) && r.1@ == utf8_bytes(scalar)
                        && fs.is_reset() && is_scalar(scalar)
                },
                DecOutcome::Partial { bytesleft, partial, lowerbound } => {
                    r.0 == Status::Incomplete && r.1@ == Seq::<u8>::empty() && fs.saved_partial(
                        *old(ps),
                        bytesleft,
                        partial,
                        lowerbound,
                    ) && !fs.spec_is_initial()
                },
                DecOutcome::Bad => r.0 == Status::Illegal && r.1@ == Seq::<u8>::empty()
                    && fs.is_reset(),
            }
        }),
{
    let mut buf: Vec<u8> = Vec::new();
    buf.push(c8);
    proof {
        assert(buf@ =~= seq![c8]);
    }
    let mut c32: u32 = 0;
    let l: isize = mbtoc32(&mut c32, buf.as_slice(), ps);
    if l == -1 {
        return (Status::Illegal, Vec::new());
    }
    if l == -2 {
        proof {
            lemma_decode_partial(
                old(ps).bytesleft as int,
                old(ps).partial,
                old(ps).lowerbound,
                seq![c8],
                0,
            );
        }
        return (Status::Incomplete, Vec::new());
    }
    match c32tomb(c32) {
        Some(v) => (Status::Units(v.len()), v),
        None => (Status::Illegal, Vec::new()),  // unreachable
    }
}

} // verus!

