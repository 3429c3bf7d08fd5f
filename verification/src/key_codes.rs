//! Usage ids of the keyboard page and the bits of the modifier byte.

use vstd::prelude::*;

verus! {

/// What one key of a layout stands for.
#[derive(Copy, Clone, Debug, PartialEq, Eq)]
pub enum Key {
    /// Bits to set in the modifier byte of a report.
    Mod(KeyMod),
    /// A usage id to list among the key codes of a report.
    Code(KeyCode),
}

/// Bits of the modifier byte.
#[derive(Copy, Clone, Debug, PartialEq, Eq)]
pub struct KeyMod(pub u8);

/// A usage id of the keyboard page.
#[derive(Copy, Clone, Debug, PartialEq, Eq)]
pub struct KeyCode(pub u8);

/// A key that sets modifier bits.
pub fn kmod(key_mod: u8) -> (key: Key)
    ensures
        key == Key::Mod(KeyMod(key_mod)),
{
    Key::Mod(KeyMod(key_mod))
}

/// A key that reports a usage id.
pub fn kcode(key_code: u8) -> (key: Key)
    ensures
        key == Key::Code(KeyCode(key_code)),
{
    Key::Code(KeyCode(key_code))
}

impl Key {
    /// The key reports nothing.
    pub open spec fn is_none(self) -> bool {
        self == Key::Code(KeyCode(KEY_NONE))
    }

    /// The key of a layout entry: modifier bits where the entry is marked
    /// `MODIFIER`, a usage id where it is marked `CODE`.
    pub open spec fn spec_from_entry(entry: (bool, u8)) -> Key {
        if entry.0 {
            Key::Mod(KeyMod(entry.1))
        } else {
            Key::Code(KeyCode(entry.1))
        }
    }

    #[verifier::when_used_as_spec(spec_from_entry)]
    pub fn from_entry(entry: (bool, u8)) -> (key: Key)
        ensures
            key == Key::spec_from_entry(entry),
    {
        if entry.0 {
            kmod(entry.1)
        } else {
            kcode(entry.1)
        }
    }
}

/// Marks a layout entry as a usage id.
pub const CODE: bool = false;

/// Marks a layout entry as the bits of a modifier.
pub const MODIFIER: bool = true;

/// Modifier bits, as the report's modifier byte holds them.
pub const KEY_MOD_LCTRL: u8 = 0x01;

pub const KEY_MOD_LSHIFT: u8 = 0x02;

pub const KEY_MOD_LALT: u8 = 0x04;

pub const KEY_MOD_LMETA: u8 = 0x08;

pub const KEY_MOD_RCTRL: u8 = 0x10;

pub const KEY_MOD_RSHIFT: u8 = 0x20;

pub const KEY_MOD_RALT: u8 = 0x40;

pub const KEY_MOD_RMETA: u8 = 0x80;

/// No key pressed
pub const KEY_NONE: u8 = 0x00;

/// Keyboard Error Roll Over - used for all slots if too many keys are pressed ("Phantom key")
pub const KEY_ERR_OVF: u8 = 0x01;

/// Keyboard POST Fail
pub const KEY_POST_FILE: u8 = 0x02;

/// Keyboard Error Undefined
pub const KEY_ERR: u8 = 0x03;

/// Keyboard a and A
pub const KEY_A: u8 = 0x04;

/// Keyboard b and B
pub const KEY_B: u8 = 0x05;

/// Keyboard c and C
pub const KEY_C: u8 = 0x06;

/// Keyboard d and D
pub const KEY_D: u8 = 0x07;

/// Keyboard e and E
pub const KEY_E: u8 = 0x08;

/// Keyboard f and F
pub const KEY_F: u8 = 0x09;

/// Keyboard g and G
pub const KEY_G: u8 = 0x0a;

/// Keyboard h and H
pub const KEY_H: u8 = 0x0b;

/// Keyboard i and I
pub const KEY_I: u8 = 0x0c;

/// Keyboard j and J
pub const KEY_J: u8 = 0x0d;

/// Keyboard k and K
pub const KEY_K: u8 = 0x0e;

/// Keyboard l and L
pub const KEY_L: u8 = 0x0f;

/// Keyboard m and M
pub const KEY_M: u8 = 0x10;

/// Keyboard n and N
pub const KEY_N: u8 = 0x11;

/// Keyboard o and O
pub const KEY_O: u8 = 0x12;

/// Keyboard p and P
pub const KEY_P: u8 = 0x13;

/// Keyboard q and Q
pub const KEY_Q: u8 = 0x14;

/// Keyboard r and R
pub const KEY_R: u8 = 0x15;

/// Keyboard s and S
pub const KEY_S: u8 = 0x16;

/// Keyboard t and T
pub const KEY_T: u8 = 0x17;

/// Keyboard u and U
pub const KEY_U: u8 = 0x18;

/// Keyboard v and V
pub const KEY_V: u8 = 0x19;

/// Keyboard w and W
pub const KEY_W: u8 = 0x1a;

/// Keyboard x and X
pub const KEY_X: u8 = 0x1b;

/// Keyboard y and Y
pub const KEY_Y: u8 = 0x1c;

/// Keyboard z and Z
pub const KEY_Z: u8 = 0x1d;

/// Keyboard 1 and !
pub const KEY_1: u8 = 0x1e;

/// Keyboard 2 and @
pub const KEY_2: u8 = 0x1f;

/// Keyboard 3 and #
pub const KEY_3: u8 = 0x20;

/// Keyboard 4 and $
pub const KEY_4: u8 = 0x21;

/// Keyboard 5 and %
pub const KEY_5: u8 = 0x22;

/// Keyboard 6 and ^
pub const KEY_6: u8 = 0x23;

/// Keyboard 7 and &
pub const KEY_7: u8 = 0x24;

/// Keyboard 8 and *
pub const KEY_8: u8 = 0x25;

/// Keyboard 9 and (
pub const KEY_9: u8 = 0x26;

/// Keyboard 0 and )
pub const KEY_0: u8 = 0x27;

/// Keyboard Return (ENTER)
pub const KEY_ENTER: u8 = 0x28;

/// Keyboard ESCAPE
pub const KEY_ESC: u8 = 0x29;

/// Keyboard DELETE (Backspace)
pub const KEY_BACKSPACE: u8 = 0x2a;

/// Keyboard Tab
pub const KEY_TAB: u8 = 0x2b;

/// Keyboard Spacebar
pub const KEY_SPACE: u8 = 0x2c;

/// Keyboard - and _
pub const KEY_MINUS: u8 = 0x2d;

/// Keyboard = and +
pub const KEY_EQUAL: u8 = 0x2e;

/// Keyboard [ and {
pub const KEY_LEFTBRACE: u8 = 0x2f;

/// Keyboard ] and }
pub const KEY_RIGHTBRACE: u8 = 0x30;

/// Keyboard \ and |
pub const KEY_BACKSLASH: u8 = 0x31;

/// Keyboard Non-US # and ~
pub const KEY_HASHTILDE: u8 = 0x32;

/// Keyboard ; and :
pub const KEY_SEMICOLON: u8 = 0x33;

/// Keyboard ' and "
pub const KEY_APOSTROPHE: u8 = 0x34;

/// Keyboard ` and ~
pub const KEY_GRAVE: u8 = 0x35;

/// Keyboard , and <
pub const KEY_COMMA: u8 = 0x36;

/// Keyboard . and >
pub const KEY_DOT: u8 = 0x37;

/// Keyboard / and ?
pub const KEY_SLASH: u8 = 0x38;

/// Keyboard Caps Lock
pub const KEY_CAPSLOCK: u8 = 0x39;

/// Keyboard F1
pub const KEY_F1: u8 = 0x3a;

/// Keyboard F2
pub const KEY_F2: u8 = 0x3b;

/// Keyboard F3
pub const KEY_F3: u8 = 0x3c;

/// Keyboard F4
pub const KEY_F4: u8 = 0x3d;

/// Keyboard F5
pub const KEY_F5: u8 = 0x3e;

/// Keyboard F6
pub const KEY_F6: u8 = 0x3f;

/// Keyboard F7
pub const KEY_F7: u8 = 0x40;

/// Keyboard F8
pub const KEY_F8: u8 = 0x41;

/// Keyboard F9
pub const KEY_F9: u8 = 0x42;

/// Keyboard F10
pub const KEY_F10: u8 = 0x43;

/// Keyboard F11
pub const KEY_F11: u8 = 0x44;

/// Keyboard F12
pub const KEY_F12: u8 = 0x45;

/// Keyboard Print Screen
pub const KEY_SYSRQ: u8 = 0x46;

/// Keyboard Scroll Lock
pub const KEY_SCROLLLOCK: u8 = 0x47;

/// Keyboard Pause
pub const KEY_PAUSE: u8 = 0x48;

/// Keyboard Insert
pub const KEY_INSERT: u8 = 0x49;

/// Keyboard Home
pub const KEY_HOME: u8 = 0x4a;

/// Keyboard Page Up
pub const KEY_PAGEUP: u8 = 0x4b;

/// Keyboard Delete Forward
pub const KEY_DELETE: u8 = 0x4c;

/// Keyboard End
pub const KEY_END: u8 = 0x4d;

/// Keyboard Page Down
pub const KEY_PAGEDOWN: u8 = 0x4e;

/// Keyboard Right Arrow
pub const KEY_RIGHT: u8 = 0x4f;

/// Keyboard Left Arrow
pub const KEY_LEFT: u8 = 0x50;

/// Keyboard Down Arrow
pub const KEY_DOWN: u8 = 0x51;

/// Keyboard Up Arrow
pub const KEY_UP: u8 = 0x52;

/// Keyboard Num Lock and Clear
pub const KEY_NUMLOCK: u8 = 0x53;

/// Keypad /
pub const KEY_KPSLASH: u8 = 0x54;

/// Keypad *
pub const KEY_KPASTERISK: u8 = 0x55;

/// Keypad -
pub const KEY_KPMINUS: u8 = 0x56;

/// Keypad +
pub const KEY_KPPLUS: u8 = 0x57;

/// Keypad ENTER
pub const KEY_KPENTER: u8 = 0x58;

/// Keypad 1 and End
pub const KEY_KP1: u8 = 0x59;

/// Keypad 2 and Down Arrow
pub const KEY_KP2: u8 = 0x5a;

/// Keypad 3 and PageDn
pub const KEY_KP3: u8 = 0x5b;

/// Keypad 4 and Left Arrow
pub const KEY_KP4: u8 = 0x5c;

/// Keypad 5
pub const KEY_KP5: u8 = 0x5d;

/// Keypad 6 and Right Arrow
pub const KEY_KP6: u8 = 0x5e;

/// Keypad 7 and Home
pub const KEY_KP7: u8 = 0x5f;

/// Keypad 8 and Up Arrow
pub const KEY_KP8: u8 = 0x60;

/// Keypad 9 and Page Up
pub const KEY_KP9: u8 = 0x61;

/// Keypad 0 and Insert
pub const KEY_KP0: u8 = 0x62;

/// Keypad . and Delete
pub const KEY_KPDOT: u8 = 0x63;

/// Keyboard Non-US \ and |
pub const KEY_102ND: u8 = 0x64;

/// Keyboard Application
pub const KEY_COMPOSE: u8 = 0x65;

/// Keyboard Power
pub const KEY_POWER: u8 = 0x66;

/// Keypad =
pub const KEY_KPEQUAL: u8 = 0x67;

/// Keyboard F13
pub const KEY_F13: u8 = 0x68;

/// Keyboard F14
pub const KEY_F14: u8 = 0x69;

/// Keyboard F15
pub const KEY_F15: u8 = 0x6a;

/// Keyboard F16
pub const KEY_F16: u8 = 0x6b;

/// Keyboard F17
pub const KEY_F17: u8 = 0x6c;

/// Keyboard F18
pub const KEY_F18: u8 = 0x6d;

/// Keyboard F19
pub const KEY_F19: u8 = 0x6e;

/// Keyboard F20
pub const KEY_F20: u8 = 0x6f;

/// Keyboard F21
pub const KEY_F21: u8 = 0x70;

/// Keyboard F22
pub const KEY_F22: u8 = 0x71;

/// Keyboard F23
pub const KEY_F23: u8 = 0x72;

/// Keyboard F24
pub const KEY_F24: u8 = 0x73;

/// Keyboard Execute
pub const KEY_OPEN: u8 = 0x74;

/// Keyboard Help
pub const KEY_HELP: u8 = 0x75;

/// Keyboard Menu
pub const KEY_PROPS: u8 = 0x76;

/// Keyboard Select
pub const KEY_FRONT: u8 = 0x77;

/// Keyboard Stop
pub const KEY_STOP: u8 = 0x78;

/// Keyboard Again
pub const KEY_AGAIN: u8 = 0x79;

/// Keyboard Undo
pub const KEY_UNDO: u8 = 0x7a;

/// Keyboard Cut
pub const KEY_CUT: u8 = 0x7b;

/// Keyboard Copy
pub const KEY_COPY: u8 = 0x7c;

/// Keyboard Paste
pub const KEY_PASTE: u8 = 0x7d;

/// Keyboard Find
pub const KEY_FIND: u8 = 0x7e;

/// Keyboard Mute
pub const KEY_MUTE: u8 = 0x7f;

/// Keyboard Volume Up
pub const KEY_VOLUMEUP: u8 = 0x80;

/// Keyboard Volume Down
pub const KEY_VOLUMEDOWN: u8 = 0x81;

} // verus!
