//! Key codes: HID keyboard usages, consumer (media) usages, and the event
//! type that a keymap table holds.
use vstd::prelude::*;

verus! {

/// A usage of the HID keyboard page.
#[derive(Clone, Copy, Debug, PartialEq, Eq, Structural)]
pub struct KeyboardCode(pub u8);

/// A usage of the HID consumer page (volume, playback).
#[derive(Clone, Copy, Debug, PartialEq, Eq, Structural)]
pub struct MediaKey(pub u16);

/// What a key of the keymap emits: a keyboard usage or a media usage.
#[derive(Clone, Copy, Debug, PartialEq, Eq, Structural)]
pub enum KbEvent {
    K(KeyboardCode),
    M(MediaKey),
}

/// First usage of the modifier block (left control).
pub const FIRST_MODIFIER: u8 = 0xE0;

/// Last usage of the modifier block (right GUI); nothing above it is defined.
pub const LAST_MODIFIER: u8 = 0xE7;

/// Modifier usages set a bit of the report's modifier byte instead of a slot.
pub open spec fn is_modifier_usage(u: u8) -> bool {
    FIRST_MODIFIER <= u <= LAST_MODIFIER
}

/// A keyboard report can carry usages 1 through 0xE7; 0 marks an empty slot.
pub open spec fn representable_usage(u: u8) -> bool {
    1 <= u <= LAST_MODIFIER
}

/// The keyboard usage an event stands for, if it is one.
pub open spec fn keyboard_usage(e: KbEvent) -> Option<u8> {
    match e {
        KbEvent::K(k) => Some(k.0),
        KbEvent::M(_) => None,
    }
}

/// An event that a keyboard report can carry.
pub open spec fn fits_keyboard_report(e: KbEvent) -> bool {
    match e {
        KbEvent::K(k) => representable_usage(k.0),
        KbEvent::M(_) => false,
    }
}

impl KeyboardCode {
    /// The keyboard code inside an event; a media event is refused.
    pub fn try_from(value: KbEvent) -> (r: Result<KeyboardCode, ()>)
        ensures
            match value {
                KbEvent::K(k) => r == Ok::<KeyboardCode, ()>(k),
                KbEvent::M(_) => r is Err,
            },
    {
        match value {
            KbEvent::K(k) => Ok(k),
            KbEvent::M(_) => Err(()),
        }
    }

    pub fn is_modifier(&self) -> (r: bool)
        ensures
            r == is_modifier_usage(self.0),
    {
        FIRST_MODIFIER <= self.0 && self.0 <= LAST_MODIFIER
    }
}

impl MediaKey {
    /// The media key inside an event; a keyboard event is refused.
    pub fn try_from(value: KbEvent) -> (r: Result<MediaKey, ()>)
        ensures
            match value {
                KbEvent::K(_) => r is Err,
                KbEvent::M(m) => r == Ok::<MediaKey, ()>(m),
            },
    {
        match value {
            KbEvent::K(_) => Err(()),
            KbEvent::M(m) => Ok(m),
        }
    }
}

impl KbEvent {
    /// Whether a keyboard report can carry this event.
    pub fn fits_keyboard_report(&self) -> (r: bool)
        ensures
            r == fits_keyboard_report(*self),
    {
        match self {
            KbEvent::K(k) => 1 <= k.0 && k.0 <= LAST_MODIFIER,
            KbEvent::M(_) => false,
        }
    }
}

// Keyboard page usages.
pub const A: u8 = 0x04;
pub const B: u8 = 0x05;
pub const C: u8 = 0x06;
pub const D: u8 = 0x07;
pub const E: u8 = 0x08;
pub const F: u8 = 0x09;
pub const G: u8 = 0x0A;
pub const H: u8 = 0x0B;
pub const I: u8 = 0x0C;
pub const J: u8 = 0x0D;
pub const K: u8 = 0x0E;
pub const L: u8 = 0x0F;
pub const M: u8 = 0x10;
pub const N: u8 = 0x11;
pub const O: u8 = 0x12;
pub const P: u8 = 0x13;
pub const Q: u8 = 0x14;
pub const R: u8 = 0x15;
pub const S: u8 = 0x16;
pub const T: u8 = 0x17;
pub const U: u8 = 0x18;
pub const V: u8 = 0x19;
pub const W: u8 = 0x1A;
pub const X: u8 = 0x1B;
pub const Y: u8 = 0x1C;
pub const Z: u8 = 0x1D;
pub const KB1: u8 = 0x1E;
pub const KB2: u8 = 0x1F;
pub const KB3: u8 = 0x20;
pub const KB4: u8 = 0x21;
pub const KB5: u8 = 0x22;
pub const KB6: u8 = 0x23;
pub const KB7: u8 = 0x24;
pub const KB8: u8 = 0x25;
pub const KB9: u8 = 0x26;
pub const KB0: u8 = 0x27;
pub const ENTER: u8 = 0x28;
pub const ESCAPE: u8 = 0x29;
pub const BSPACE: u8 = 0x2A;
pub const TAB: u8 = 0x2B;
pub const SPACE: u8 = 0x2C;
pub const MINUS: u8 = 0x2D;
pub const EQUAL: u8 = 0x2E;
pub const LBRACKET: u8 = 0x2F;
pub const RBRACKET: u8 = 0x30;
pub const BSLASH: u8 = 0x31;
pub const SCOLON: u8 = 0x33;
pub const QUOTE: u8 = 0x34;
pub const GRAVE: u8 = 0x35;
pub const COMMA: u8 = 0x36;
pub const DOT: u8 = 0x37;
pub const SLASH: u8 = 0x38;
pub const CAPS_LOCK: u8 = 0x39;
pub const F1: u8 = 0x3A;
pub const F2: u8 = 0x3B;
pub const F3: u8 = 0x3C;
pub const F4: u8 = 0x3D;
pub const F5: u8 = 0x3E;
pub const F6: u8 = 0x3F;
pub const F7: u8 = 0x40;
pub const F8: u8 = 0x41;
pub const F9: u8 = 0x42;
pub const F10: u8 = 0x43;
pub const F11: u8 = 0x44;
pub const F12: u8 = 0x45;
pub const PSCREEN: u8 = 0x46;
pub const INSERT: u8 = 0x49;
pub const HOME: u8 = 0x4A;
pub const PGUP: u8 = 0x4B;
pub const DELETE: u8 = 0x4C;
pub const END: u8 = 0x4D;
pub const PGDOWN: u8 = 0x4E;
pub const RIGHT: u8 = 0x4F;
pub const LEFT: u8 = 0x50;
pub const DOWN: u8 = 0x51;
pub const UP: u8 = 0x52;
pub const NON_US_BSLASH: u8 = 0x64;
pub const APPLICATION: u8 = 0x65;
pub const MENU: u8 = 0x76;
pub const MUTE: u8 = 0x7F;
pub const VOL_UP: u8 = 0x80;
pub const VOL_DOWN: u8 = 0x81;
pub const LCTRL: u8 = 0xE0;
pub const LSHIFT: u8 = 0xE1;
pub const LALT: u8 = 0xE2;
pub const LGUI: u8 = 0xE3;
pub const RCTRL: u8 = 0xE4;
pub const RSHIFT: u8 = 0xE5;
pub const RALT: u8 = 0xE6;
pub const RGUI: u8 = 0xE7;

// Consumer page usages.
pub const MEDIA_NEXT: u16 = 0xB5;
pub const MEDIA_PREV: u16 = 0xB6;
pub const MEDIA_STOP: u16 = 0xB7;
pub const MEDIA_PLAY_PAUSE: u16 = 0xCD;
pub const MEDIA_MUTE: u16 = 0xE2;
pub const MEDIA_VOL_UP: u16 = 0xE9;
pub const MEDIA_VOL_DOWN: u16 = 0xEA;

} // verus!
