//! Transition events and the four-byte frame that carries one across the
//! serial link between the halves.
use vstd::prelude::*;

verus! {

/// One switch changed: the intersection of drive line `drive` and sense line
/// `sense` is now pressed or released.
#[derive(Clone, Copy, Debug, PartialEq, Eq, Structural)]
pub struct ButtonStatusEvent {
    pub drive: u8,
    pub sense: u8,
    pub pressed: bool,
}

/// Frame bytes: drive index, sense index, pressed flag, reserved.
pub open spec fn encode_spec(e: ButtonStatusEvent) -> Seq<u8> {
    seq![e.drive, e.sense, if e.pressed { 1u8 } else { 0u8 }, 0u8]
}

/// Whether an event lies inside a keyboard of `drives` x `senses`.
pub open spec fn in_bounds(e: ButtonStatusEvent, drives: u8, senses: u8) -> bool {
    e.drive < drives && e.sense < senses
}

/// A frame is valid when both indices are in bounds and the flag is 0 or 1;
/// the reserved byte is not looked at.
pub open spec fn decode_spec(f: Seq<u8>, drives: u8, senses: u8) -> Option<ButtonStatusEvent> {
    if f.len() == 4 && f[0] < drives && f[1] < senses && (f[2] == 0 || f[2] == 1) {
        Some(ButtonStatusEvent { drive: f[0], sense: f[1], pressed: f[2] == 1 })
    } else {
        None
    }
}

impl ButtonStatusEvent {
    pub fn new(pressed: bool, drive: u8, sense: u8) -> (r: ButtonStatusEvent)
        ensures
            r == (ButtonStatusEvent { drive, sense, pressed }),
    {
        ButtonStatusEvent { drive, sense, pressed }
    }

    pub fn encode(&self) -> (r: [u8; 4])
        ensures
            r@ == encode_spec(*self),
    {
        let flag: u8 = if self.pressed { 1 } else { 0 };
        let r = [self.drive, self.sense, flag, 0u8];
        assert(r@ =~= encode_spec(*self));
        r
    }

    /// Reads one frame for a keyboard of `drives` x `senses`.
    pub fn decode(frame: &[u8; 4], drives: u8, senses: u8) -> (r: Option<ButtonStatusEvent>)
        ensures
            r == decode_spec(frame@, drives, senses),
    {
        if frame[0] < drives && frame[1] < senses && (frame[2] == 0 || frame[2] == 1) {
            Some(ButtonStatusEvent { drive: frame[0], sense: frame[1], pressed: frame[2] == 1 })
        } else {
            None
        }
    }
}

/// Every event inside the keyboard survives the trip through a frame.
pub proof fn lemma_decode_encode(e: ButtonStatusEvent, drives: u8, senses: u8)
    requires
        in_bounds(e, drives, senses),
    ensures
        decode_spec(encode_spec(e), drives, senses) == Some(e),
{
}

/// Decoding a valid frame, encoding the event and decoding again gives the
/// same event.
pub proof fn lemma_decode_encode_decode(f: Seq<u8>, drives: u8, senses: u8)
    requires
        decode_spec(f, drives, senses) is Some,
    ensures
        decode_spec(encode_spec(decode_spec(f, drives, senses).unwrap()), drives, senses)
            == decode_spec(f, drives, senses),
{
    lemma_decode_encode(decode_spec(f, drives, senses).unwrap(), drives, senses);
}

/// The receiving end of the link: a window of the last four bytes, read
/// again after every byte. It has no start marker and no checksum: it
/// synchronises on the validity of the window alone.
pub struct LinkReceiver {
    window: [u8; 4],
    drives: u8,
    senses: u8,
}

impl LinkReceiver {
    pub closed spec fn window(&self) -> Seq<u8> {
        self.window@
    }

    /// The window always holds four bytes.
    pub proof fn lemma_window_len(&self)
        ensures
            self.window().len() == 4,
    {
    }

    pub closed spec fn drives(&self) -> u8 {
        self.drives
    }

    pub closed spec fn senses(&self) -> u8 {
        self.senses
    }

    /// A receiver for a keyboard of `drives` x `senses`, window all zero.
    pub fn new(drives: u8, senses: u8) -> (r: LinkReceiver)
        ensures
            r.window() == seq![0u8, 0u8, 0u8, 0u8],
            r.window().len() == 4,
            r.drives() == drives,
            r.senses() == senses,
    {
        let r = LinkReceiver { window: [0u8; 4], drives, senses };
        assert(r.window@ =~= seq![0u8, 0u8, 0u8, 0u8]);
        r
    }

    /// Shifts in one byte and reads the window.
    pub fn push_byte(&mut self, b: u8) -> (r: Option<ButtonStatusEvent>)
        ensures
            old(self).window().len() == 4,
            final(self).window().len() == 4,
            final(self).window() == old(self).window().subrange(1, 4).push(b),
            final(self).drives() == old(self).drives(),
            final(self).senses() == old(self).senses(),
            r == decode_spec(final(self).window(), old(self).drives(), old(self).senses()),
    {
        let w = [self.window[1], self.window[2], self.window[3], b];
        assert(w@ =~= self.window@.subrange(1, 4).push(b));
        self.window = w;
        ButtonStatusEvent::decode(&self.window, self.drives, self.senses)
    }
}

/// The window after shifting in `bytes`, one at a time.
pub open spec fn shift_in(window: Seq<u8>, bytes: Seq<u8>) -> Seq<u8>
    decreases bytes.len(),
{
    if bytes.len() == 0 {
        window
    } else {
        shift_in(window, bytes.drop_last()).subrange(1, 4).push(bytes.last())
    }
}

/// Whatever the window held before, shifting in the four bytes of an event
/// inside the keyboard leaves a window that reads as that event: the link
/// resynchronises within one frame.
pub proof fn lemma_frame_resynchronises(window: Seq<u8>, e: ButtonStatusEvent, drives: u8, senses: u8)
    requires
        window.len() == 4,
        in_bounds(e, drives, senses),
    ensures
        shift_in(window, encode_spec(e)) == encode_spec(e),
        decode_spec(shift_in(window, encode_spec(e)), drives, senses) == Some(e),
{
    let f = encode_spec(e);
    let s1 = seq![f[0]];
    assert(s1.drop_last() =~= Seq::<u8>::empty());
    assert(shift_in(window, s1.drop_last()) == window);
    assert(s1.last() == f[0]);
    let w1 = window.subrange(1, 4).push(f[0]);
    assert(shift_in(window, s1) =~= w1);
    assert(seq![f[0], f[1]].drop_last() =~= seq![f[0]]);
    let w2 = w1.subrange(1, 4).push(f[1]);
    assert(shift_in(window, seq![f[0], f[1]]) =~= w2);
    assert(f.drop_last() =~= seq![f[0], f[1], f[2]]);
    assert(seq![f[0], f[1], f[2]].drop_last() =~= seq![f[0], f[1]]);
    let w3 = w2.subrange(1, 4).push(f[2]);
    assert(shift_in(window, seq![f[0], f[1], f[2]]) =~= w3);
    assert(shift_in(window, f) =~= f);
    lemma_decode_encode(e, drives, senses);
}

} // verus!
