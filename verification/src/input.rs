//! The keypad capability the engine consumes: sixteen key-down states,
//! queried one code at a time or scanned for any pressed key.

use vstd::prelude::*;

verus! {

/// Whether key `code` is down in `mask` (bit `code`); codes above 15 are
/// never down.
pub open spec fn key_down(mask: u16, code: u8) -> bool {
    code < 16 && (mask >> code) & 1 == 1
}

/// The lowest pressed key code from `c` upward, if any.
pub open spec fn first_down_from(mask: u16, c: u8) -> Option<u8>
    decreases 16 - c,
{
    if c >= 16 {
        None
    } else if key_down(mask, c) {
        Some(c)
    } else {
        first_down_from(mask, (c + 1) as u8)
    }
}

/// The lowest pressed key code, if any key is down.
pub open spec fn spec_any_down(mask: u16) -> Option<u8> {
    first_down_from(mask, 0)
}

/// The state of the 16-key hexadecimal keypad: bit `c` of `mask` is set
/// exactly while key code `c` is held down.
#[derive(Clone, Copy, PartialEq, Eq, Structural, Debug)]
pub struct Keypad {
    pub mask: u16,
}

impl Keypad {
    /// A keypad with no key down.
    pub fn new() -> (k: Keypad)
        ensures
            k.mask == 0u16,
    {
        Keypad { mask: 0 }
    }

    /// A keypad holding the given key-down bits.
    pub fn from_mask(mask: u16) -> (k: Keypad)
        ensures
            k.mask == mask,
    {
        Keypad { mask }
    }

    /// Marks key `code` as down; codes above 15 change nothing.
    pub fn press(&mut self, code: u8)
        ensures
            final(self).mask == (if code < 16 {
                old(self).mask | (1u16 << code)
            } else {
                old(self).mask
            }),
    {
        if code < 16 {
            self.mask = self.mask | (1u16 << code);
        }
    }

    /// Whether key `code` is currently down.
    pub fn is_down(&self, code: u8) -> (b: bool)
        ensures
            b == key_down(self.mask, code),
    {
        if code < 16 {
            (self.mask >> code) & 1 == 1
        } else {
            false
        }
    }

    /// The lowest currently pressed key code, or `None` while no key is
    /// down.
    pub fn any_down(&self) -> (r: Option<u8>)
        ensures
            r == spec_any_down(self.mask),
    {
        let mut c: u8 = 0;
        while c < 16
            invariant
                0 <= c <= 16,
                first_down_from(self.mask, 0) == first_down_from(self.mask, c),
            decreases 16 - c,
        {
            if (self.mask >> c) & 1 == 1 {
                return Some(c);
            }
            c = c + 1;
        }
        None
    }
}

} // verus!
