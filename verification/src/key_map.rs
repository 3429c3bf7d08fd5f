//! The layout: what each of the keys of the two halves stands for, on the
//! base layer and on the navigation overlay.

use crate::key_codes::{
    Key, KeyCode, KeyMod, kcode, CODE, KEY_0, KEY_1, KEY_2, KEY_3, KEY_4, KEY_5, KEY_6, KEY_7,
    KEY_8, KEY_9, KEY_A, KEY_APOSTROPHE, KEY_B, KEY_BACKSLASH, KEY_BACKSPACE, KEY_C, KEY_COMMA,
    KEY_D, KEY_DELETE, KEY_DOT, KEY_DOWN, KEY_E, KEY_END, KEY_ENTER, KEY_EQUAL, KEY_ESC, KEY_F,
    KEY_G, KEY_GRAVE, KEY_H, KEY_HOME, KEY_I, KEY_J, KEY_K, KEY_L, KEY_LEFT, KEY_LEFTBRACE,
    KEY_M, KEY_MINUS, KEY_MOD_LALT, KEY_MOD_LCTRL, KEY_MOD_LMETA, KEY_MOD_LSHIFT, KEY_N,
    KEY_NONE, KEY_O, KEY_P, KEY_PAGEDOWN, KEY_PAGEUP, KEY_Q, KEY_R, KEY_RIGHT, KEY_RIGHTBRACE,
    KEY_S, KEY_SEMICOLON, KEY_SLASH, KEY_SPACE, KEY_T, KEY_TAB, KEY_U, KEY_UP, KEY_V, KEY_W,
    KEY_X, KEY_Y, KEY_Z, MODIFIER,
};
use crate::key_hid::{
    codes_upto, merged_state, mods_upto, report_of, slot_code, KeyState, KeyboardReport, Keymap,
    NUM_SLOTS, REPORT_KEYS,
};
use crate::key_update::KeyUpdate;
use crate::proto::NUM_KEYS;
use vstd::prelude::*;

verus! {

/// The place in a layout of key `idx` of the left half, counted from one.
pub fn l(idx: usize) -> (place: usize)
    requires
        1 <= idx,
    ensures
        place == idx - 1,
{
    idx - 1
}

/// The place in a layout of key `idx` of the right half, counted from one.
pub fn r(idx: usize) -> (place: usize)
    requires
        1 <= idx,
        NUM_KEYS + idx <= usize::MAX,
    ensures
        place == NUM_KEYS + idx - 1,
{
    NUM_KEYS + idx - 1
}

/// The layout that reports nothing but for the listed places. Of two pairs
/// for one place the later counts.
pub open spec fn layout_of(pairs: Seq<(usize, Key)>) -> Seq<Key>
    decreases pairs.len(),
{
    if pairs.len() == 0 {
        Seq::new(NUM_SLOTS as nat, |i: int| Key::Code(KeyCode(KEY_NONE)))
    } else {
        layout_of(pairs.drop_last()).update(pairs.last().0 as int, pairs.last().1)
    }
}

/// Builds the layout that reports nothing but for the listed places.
pub fn from_pairs(pairs: &[(usize, Key)]) -> (layout: [Key; NUM_SLOTS])
    requires
        forall|i: int| 0 <= i < pairs@.len() ==> (#[trigger] pairs@[i]).0 < NUM_SLOTS,
    ensures
        layout@ == layout_of(pairs@),
{
    let mut result = [kcode(KEY_NONE);NUM_SLOTS];
    assert(result@ =~= layout_of(pairs@.take(0)));
    let mut arr_idx: usize = 0;
    while arr_idx < pairs.len()
        invariant
            arr_idx <= pairs.len(),
            forall|i: int| 0 <= i < pairs@.len() ==> (#[trigger] pairs@[i]).0 < NUM_SLOTS,
            result@ == layout_of(pairs@.take(arr_idx as int)),
        decreases pairs.len() - arr_idx,
    {
        let (idx, code) = pairs[arr_idx];
        proof {
            assert(pairs@.take(arr_idx + 1).drop_last() =~= pairs@.take(arr_idx as int));
        }
        result[idx] = code;
        arr_idx += 1;
    }
    assert(pairs@.take(pairs@.len() as int) =~= pairs@);
    result
}

/// The base layer, left half first. Each entry says what its key stands
/// for: a usage id, or the bits of a modifier.
pub const KEY_MATRIX: [(bool, u8); NUM_SLOTS] = [
    // -- LEFT Side --
    // K1-K7
    (CODE, KEY_NONE),
    (CODE, KEY_5),
    (CODE, KEY_4),
    (CODE, KEY_3),
    (CODE, KEY_2),
    (CODE, KEY_1),
    (CODE, KEY_GRAVE),
    // K8-K14
    (CODE, KEY_LEFTBRACE),
    (CODE, KEY_T),
    (CODE, KEY_R),
    (CODE, KEY_E),
    (CODE, KEY_W),
    (CODE, KEY_Q),
    (CODE, KEY_TAB),
    // K15-K21
    (CODE, KEY_PAGEUP),
    (CODE, KEY_G),
    (CODE, KEY_F),
    (CODE, KEY_D),
    (CODE, KEY_S),
    (CODE, KEY_A),
    (CODE, KEY_BACKSPACE),
    // K22-K28
    (CODE, KEY_PAGEDOWN),
    (CODE, KEY_B),
    (CODE, KEY_V),
    (CODE, KEY_C),
    (CODE, KEY_X),
    (CODE, KEY_Z),
    (CODE, KEY_NONE),
    // K29-K35
    (CODE, KEY_ESC),
    (MODIFIER, KEY_MOD_LSHIFT),
    (MODIFIER, KEY_MOD_LCTRL),
    (MODIFIER, KEY_MOD_LALT),
    (CODE, KEY_BACKSLASH),
    (CODE, KEY_DELETE),
    (MODIFIER, KEY_MOD_LMETA),
    // -- Right Side --
    // K1-K7
    (CODE, KEY_NONE),
    (CODE, KEY_6),
    (CODE, KEY_7),
    (CODE, KEY_8),
    (CODE, KEY_9),
    (CODE, KEY_0),
    (CODE, KEY_EQUAL),
    // K8-K14
    (CODE, KEY_RIGHTBRACE),
    (CODE, KEY_Y),
    (CODE, KEY_U),
    (CODE, KEY_I),
    (CODE, KEY_O),
    (CODE, KEY_P),
    (CODE, KEY_MINUS),
    // K15-K21
    (CODE, KEY_END),
    (CODE, KEY_H),
    (CODE, KEY_J),
    (CODE, KEY_K),
    (CODE, KEY_L),
    (CODE, KEY_SEMICOLON),
    (CODE, KEY_APOSTROPHE),
    // K22-K28
    (CODE, KEY_HOME),
    (CODE, KEY_N),
    (CODE, KEY_M),
    (CODE, KEY_COMMA),
    (CODE, KEY_DOT),
    (CODE, KEY_SLASH),
    (CODE, KEY_NONE),
    // K29-K35
    (CODE, KEY_ENTER),
    (CODE, KEY_SPACE),
    (CODE, KEY_NONE),
    (CODE, KEY_LEFT),
    (CODE, KEY_DOWN),
    (CODE, KEY_UP),
    (CODE, KEY_RIGHT),
];

/// The place of the key that brings up the navigation overlay while held.
pub const NAV_KEY: usize = NUM_KEYS + 31 - 1;

/// The base layer as keys.
pub open spec fn base_layout() -> Seq<Key> {
    Seq::new(NUM_SLOTS as nat, |i: int| Key::from_entry(KEY_MATRIX[i]))
}

/// The navigation overlay: the arrows under the right hand's home row, and
/// nothing else.
pub open spec fn nav_layout() -> Seq<Key> {
    layout_of(
        seq![
            ((NUM_KEYS + 15) as usize, Key::Code(KeyCode(KEY_LEFT))),
            ((NUM_KEYS + 16) as usize, Key::Code(KeyCode(KEY_DOWN))),
            ((NUM_KEYS + 17) as usize, Key::Code(KeyCode(KEY_UP))),
            ((NUM_KEYS + 18) as usize, Key::Code(KeyCode(KEY_RIGHT))),
        ],
    )
}

/// Builds the base layer.
pub fn key_matrix() -> (layout: [Key; NUM_SLOTS])
    ensures
        layout@ == base_layout(),
{
    let mut layout = [kcode(KEY_NONE);NUM_SLOTS];
    let mut i: usize = 0;
    while i < NUM_SLOTS
        invariant
            i <= NUM_SLOTS,
            forall|k: int| 0 <= k < i ==> #[trigger] layout@[k] == Key::from_entry(KEY_MATRIX[k]),
        decreases NUM_SLOTS - i,
    {
        layout[i] = Key::from_entry(KEY_MATRIX[i]);
        i += 1;
    }
    assert(layout@ =~= base_layout());
    layout
}

/// Builds the navigation overlay.
pub fn nav_matrix() -> (layout: [Key; NUM_SLOTS])
    ensures
        layout@ == nav_layout(),
{
    let pairs = [
        (r(16), kcode(KEY_LEFT)),
        (r(17), kcode(KEY_DOWN)),
        (r(18), kcode(KEY_UP)),
        (r(19), kcode(KEY_RIGHT)),
    ];
    let layout = from_pairs(pairs.as_slice());
    assert(pairs@ =~= seq![
        ((NUM_KEYS + 15) as usize, Key::Code(KeyCode(KEY_LEFT))),
        ((NUM_KEYS + 16) as usize, Key::Code(KeyCode(KEY_DOWN))),
        ((NUM_KEYS + 17) as usize, Key::Code(KeyCode(KEY_UP))),
        ((NUM_KEYS + 18) as usize, Key::Code(KeyCode(KEY_RIGHT))),
    ]);
    layout
}

/// The key codes gathered for a report, in order.
pub uninterp spec fn code_bytes(codes: heapless::Vec<u8, REPORT_KEYS>) -> Seq<u8>;

/// Calls `heapless::Vec::new`: a vector that holds nothing.
#[verifier::external_body]
fn codes_new() -> (codes: heapless::Vec<u8, REPORT_KEYS>)
    ensures
        code_bytes(codes) == Seq::<u8>::empty(),
{
    heapless::Vec::new()
}

/// Calls `heapless::Vec::push`: the code is added at the back. A vector
/// that is full stays as it is and hands the code back.
#[verifier::external_body]
fn codes_push(codes: &mut heapless::Vec<u8, REPORT_KEYS>, code: u8) -> (r: Result<(), u8>)
    ensures
        match r {
            Ok(_) => code_bytes(*old(codes)).len() < REPORT_KEYS && code_bytes(*final(codes))
                == code_bytes(*old(codes)).push(code),
            Err(back) => code_bytes(*old(codes)).len() >= REPORT_KEYS && back == code
                && code_bytes(*final(codes)) == code_bytes(*old(codes)),
        },
{
    codes.push(code)
}

/// Calls `heapless::Vec::as_slice`: the codes the vector holds, which are
/// never more than its capacity.
#[verifier::external_body]
fn codes_as_slice(codes: &heapless::Vec<u8, REPORT_KEYS>) -> (bytes: &[u8])
    ensures
        bytes@ == code_bytes(*codes),
        bytes@.len() <= REPORT_KEYS,
{
    codes.as_slice()
}

/// The codes that a report has room for: the first six.
pub open spec fn first_codes(codes: Seq<u8>) -> Seq<u8> {
    if codes.len() <= REPORT_KEYS {
        codes
    } else {
        codes.take(REPORT_KEYS as int)
    }
}

/// A key map of two layers: the base layer, and an overlay that takes its
/// place as a whole while the layer key is held.
#[derive(Debug, Clone, Copy, PartialEq, Eq)]
pub struct BasicKeymap {
    pub base: [Key; NUM_SLOTS],
    pub overlay: [Key; NUM_SLOTS],
    pub layer_key: usize,
}

impl BasicKeymap {
    /// The layer that is in force in `state`: the overlay while the layer
    /// key is down. A layer key that names no key is never down.
    pub open spec fn layer(&self, state: Seq<bool>) -> Seq<Key> {
        if self.layer_key < NUM_SLOTS && state[self.layer_key as int] {
            self.overlay@
        } else {
            self.base@
        }
    }

    /// The keyboard's own layout.
    pub fn new() -> (map: Self)
        ensures
            map.base@ == base_layout(),
            map.overlay@ == nav_layout(),
            map.layer_key == NAV_KEY,
    {
        BasicKeymap { base: key_matrix(), overlay: nav_matrix(), layer_key: NAV_KEY }
    }

    /// A layout of the caller's choice.
    pub fn with_layout(base: [Key; NUM_SLOTS], overlay: [Key; NUM_SLOTS], layer_key: usize) -> (map:
        Self)
        ensures
            map.base == base,
            map.overlay == overlay,
            map.layer_key == layer_key,
    {
        BasicKeymap { base, overlay, layer_key }
    }

    /// The report for the keys that are down.
    pub fn report_for(&self, state: &KeyState) -> (report: KeyboardReport)
        ensures
            report == report_of(state.0@, self.layer(state.0@)),
    {
        let mut code_vec = codes_new();
        let mut modifier = 0u8;
        let nav_pressed = self.layer_key < NUM_SLOTS && state.0[self.layer_key];
        let matrix = if nav_pressed {
            &self.overlay
        } else {
            &self.base
        };
        let ghost keys = state.0@;
        let ghost layout = matrix@;
        let mut i: usize = 0;
        while i < NUM_SLOTS
            invariant
                i <= NUM_SLOTS,
                keys == state.0@,
                layout == matrix@,
                modifier == mods_upto(keys, layout, i as int),
                code_bytes(code_vec) == first_codes(codes_upto(keys, layout, i as int)),
            decreases NUM_SLOTS - i,
        {
            let key = state.0[i];
            let code = matrix[i];
            if key {
                match code {
                    Key::Mod(KeyMod(m)) => {
                        modifier |= m;
                    },
                    Key::Code(KeyCode(c)) => {
                        if c != KEY_NONE {
                            let ghost before = codes_upto(keys, layout, i as int);
                            let _ = codes_push(&mut code_vec, c);
                            assert(code_bytes(code_vec) =~= first_codes(before.push(c)));
                        }
                    },
                }
            }
            i += 1;
        }
        let ghost codes = codes_upto(keys, layout, NUM_SLOTS as int);
        let gathered = codes_as_slice(&code_vec);
        let mut keycodes = [0u8;REPORT_KEYS];
        let mut k: usize = 0;
        while k < gathered.len()
            invariant
                k <= gathered.len() <= REPORT_KEYS,
                gathered@ == first_codes(codes),
                forall|j: int| 0 <= j < k ==> #[trigger] keycodes@[j] == gathered@[j],
                forall|j: int| k <= j < REPORT_KEYS ==> #[trigger] keycodes@[j] == 0,
            decreases gathered.len() - k,
        {
            keycodes[k] = gathered[k];
            k += 1;
        }
        let report = KeyboardReport { keycodes, leds: 0, modifier, reserved: 0 };
        assert(report.keycodes =~= report_of(keys, layout).keycodes) by {
            assert forall|j: int| 0 <= j < REPORT_KEYS implies report.keycodes@[j] == slot_code(
                codes,
                j,
            ) by {
                if j < gathered@.len() {
                    assert(gathered@[j] == codes[j]);
                }
            }
        }
        report
    }
}

impl Keymap for BasicKeymap {
    open spec fn report(&self, left: Seq<u8>, right: Seq<u8>) -> KeyboardReport {
        report_of(merged_state(left, right), self.layer(merged_state(left, right)))
    }

    open spec fn after(&self, left: Seq<u8>, right: Seq<u8>) -> Self {
        *self
    }

    fn get_report(&mut self, left: &KeyUpdate, right: &KeyUpdate) -> (report: KeyboardReport) {
        let state = KeyState::merge(left, right);
        self.report_for(&state)
    }
}

} // verus!
