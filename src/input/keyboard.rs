use vstd::prelude::*;

verus! {

/// A key on the keyboard.
#[derive(Debug, Clone, Copy, PartialEq, Eq, Hash, Structural)]
pub struct KeyCode {
    /// The hardware scan code of the key.
    pub scancode: u32,
    /// The windowing layer's virtual key code, as a number, when it has one.
    pub mapped: Option<u32>,
}

pub const SHIFT: u8 = 0b0000_0001;

pub const CTRL: u8 = 0b0000_0010;

pub const ALT: u8 = 0b0000_0100;

pub const LOGO: u8 = 0b0000_1000;

/// The set of modifier keys held down, one bit each.
#[derive(Debug, Clone, Copy, PartialEq, Eq, Hash, Default, Structural)]
pub struct KeyboardModifiers {
    bits: u8,
}

/// The bit of a modifier that is held, or nothing.
pub open spec fn bit_if(held: bool, bit: u8) -> u8 {
    if held {
        bit
    } else {
        0
    }
}

impl KeyboardModifiers {
    pub closed spec fn spec_bits(&self) -> u8 {
        self.bits
    }

    /// No modifier held.
    pub fn empty() -> (r: Self)
        ensures
            r.spec_bits() == 0,
    {
        KeyboardModifiers { bits: 0 }
    }

    /// The modifiers from the state of each of the four keys.
    pub fn from_states(shift: bool, ctrl: bool, alt: bool, logo: bool) -> (r: Self)
        ensures
            r.spec_bits() == bit_if(shift, SHIFT) + bit_if(ctrl, CTRL) + bit_if(alt, ALT) + bit_if(logo, LOGO),
    {
        let mut bits: u8 = 0;
        if shift {
            bits = bits + SHIFT;
        }
        if ctrl {
            bits = bits + CTRL;
        }
        if alt {
            bits = bits + ALT;
        }
        if logo {
            bits = bits + LOGO;
        }
        KeyboardModifiers { bits }
    }

    pub fn bits(&self) -> (r: u8)
        ensures
            r == self.spec_bits(),
    {
        self.bits
    }

    /// Whether every modifier bit of `flag` is held.
    pub fn contains(&self, flag: u8) -> (r: bool)
        ensures
            r == (self.spec_bits() & flag == flag),
    {
        self.bits & flag == flag
    }
}

/// A keyboard occurrence.
#[derive(Debug, Clone, Copy, PartialEq, Eq, Hash, Structural)]
pub enum KeyboardEvent {
    KeyPressed(KeyCode),
    KeyReleased(KeyCode),
    ModifiersChanged(KeyboardModifiers),
}

} // verus!
