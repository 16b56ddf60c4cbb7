//! The persistent conversion state carried across calls.

use vstd::prelude::*;

verus! {

/// State of one in-progress conversion stream.
///
/// A zero-initialized state (as built by [`MBState::new`]) is the initial,
/// restart-ready state.  The fields record, respectively: how many UTF-8
/// continuation bytes are still expected, the scalar bits gathered so far,
/// the smallest scalar legal for the sequence length in progress (used to
/// reject overlong encodings), the encoded bytes not yet handed out one unit
/// at a time, and a 16-bit unit held between calls (either a low surrogate
/// queued for emission or a high surrogate awaiting its pair).
pub struct MBState {
    pub bytesleft: usize,
    pub partial: u32,
    pub lowerbound: u32,
    pub pending: Vec<u8>,
    pub surrogate: u16,
}

impl MBState {
    /// Structural bounds that every reachable state satisfies.
    pub open spec fn wf(&self) -> bool {
        self.bytesleft <= 3 && self.pending@.len() <= 3
    }

    /// All fields zeroed and the output queue empty.
    pub open spec fn is_reset(&self) -> bool {
        &&& self.bytesleft == 0
        &&& self.partial == 0
        &&& self.lowerbound == 0
        &&& self.pending@ == Seq::<u8>::empty()
        &&& self.surrogate == 0
    }

    /// The state is initial (restart-ready): no sequence in progress, no
    /// queued output unit, no surrogate held over.
    pub open spec fn spec_is_initial(&self) -> bool {
        &&& self.bytesleft == 0
        &&& self.pending@.len() == 0
        &&& !(0xD800 <= self.surrogate <= 0xDFFF)
    }

    /// The state after an interrupted decode: the decoder fields hold the
    /// given values and everything else is carried over from `prev`.
    pub open spec fn saved_partial(&self, prev: MBState, bl: int, p: u32, lb: u32) -> bool {
        &&& self.bytesleft == bl
        &&& self.partial == p
        &&& self.lowerbound == lb
        &&& self.pending == prev.pending
        &&& self.surrogate == prev.surrogate
    }

    /// Same as `prev` except for the held 16-bit unit.
    pub open spec fn with_surrogate(&self, prev: MBState, u: u16) -> bool {
        &&& self.bytesleft == prev.bytesleft
        &&& self.partial == prev.partial
        &&& self.lowerbound == prev.lowerbound
        &&& self.pending == prev.pending
        &&& self.surrogate == u
    }

    /// Same as `prev` except for the queued output bytes.
    pub open spec fn with_pending(&self, prev: MBState, q: Seq<u8>) -> bool {
        &&& self.bytesleft == prev.bytesleft
        &&& self.partial == prev.partial
        &&& self.lowerbound == prev.lowerbound
        &&& self.pending@ == q
        &&& self.surrogate == prev.surrogate
    }

    /// Reset except for the held 16-bit unit.
    pub open spec fn reset_with_surrogate(&self, u: u16) -> bool {
        &&& self.bytesleft == 0
        &&& self.partial == 0
        &&& self.lowerbound == 0
        &&& self.pending@ == Seq::<u8>::empty()
        &&& self.surrogate == u
    }

    /// Reset except for the queued output bytes.
    pub open spec fn reset_with_pending(&self, q: Seq<u8>) -> bool {
        &&& self.bytesleft == 0
        &&& self.partial == 0
        &&& self.lowerbound == 0
        &&& self.pending@ == q
        &&& self.surrogate == 0
    }

    pub fn new() -> (r: Self)
        ensures
            r.is_reset(),
            r.wf(),
            r.spec_is_initial(),
    {
        Self {
            bytesleft: 0,
            partial: 0,
            lowerbound: 0,
            pending: Vec::new(),
            surrogate: 0,
        }
    }

    pub fn is_initial(&self) -> (r: bool)
        ensures
            r == self.spec_is_initial(),
    {
        self.bytesleft == 0 && self.pending.len() == 0 && (self.surrogate < 0xD800
            || self.surrogate > 0xDFFF)
    }

    pub fn reset(&mut self)
        ensures
            final(self).is_reset(),
            final(self).wf(),
            final(self).spec_is_initial(),
    {
        self.bytesleft = 0;
        self.partial = 0;
        self.lowerbound = 0;
        self.pending.clear();
        self.surrogate = 0;
    }
}

/// The initial-state query over an optional state: an absent state counts as
/// initial.
pub fn state_is_initial(ps: Option<&MBState>) -> (r: bool)
    ensures
        (match ps {
            Some(st) => r == st.spec_is_initial(),
            None => r == true,
        }),
{
    match ps {
        Some(st) => st.is_initial(),
        None => true,
    }
}

} // verus!
