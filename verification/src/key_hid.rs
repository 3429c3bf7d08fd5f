//! The keyboard report: which keys are down on both halves, and what the
//! host is told about them.

use crate::key_codes::{Key, KeyCode, KeyMod, KEY_NONE};
use crate::key_update::KeyUpdate;
use crate::proto::NUM_KEYS;
use vstd::prelude::*;

verus! {

/// Keys of both halves.
pub const NUM_SLOTS: usize = 2 * NUM_KEYS;

/// Key codes that one report can list.
pub const REPORT_KEYS: usize = 6;

/// Milliseconds between two polls that the report endpoint asks of the host.
pub const HID_POLL_MS: u8 = 60;

/// Which keys are down: the left half's keys, then the right half's.
#[derive(Debug, Clone, Copy, PartialEq, Eq)]
pub struct KeyState(pub [bool; NUM_SLOTS]);

/// The boot-keyboard report.
#[derive(Debug, Clone, Copy, PartialEq, Eq)]
pub struct KeyboardReport {
    pub modifier: u8,
    pub reserved: u8,
    pub leds: u8,
    pub keycodes: [u8; REPORT_KEYS],
}

/// The keys that are down when the halves report `left` and `right`. A
/// coordinate that names no key counts for nothing.
pub open spec fn merged_state(left: Seq<u8>, right: Seq<u8>) -> Seq<bool> {
    Seq::new(
        NUM_SLOTS as nat,
        |i: int|
            if i < NUM_KEYS {
                left.contains(i as u8)
            } else {
                right.contains((i - NUM_KEYS) as u8)
            },
    )
}

/// The modifier bits of the keys that are down among the first `upto`.
pub open spec fn mods_upto(state: Seq<bool>, layout: Seq<Key>, upto: int) -> u8
    decreases upto,
{
    if upto <= 0 {
        0
    } else {
        let before = mods_upto(state, layout, upto - 1);
        match layout[upto - 1] {
            Key::Mod(KeyMod(bits)) => if state[upto - 1] {
                before | bits
            } else {
                before
            },
            Key::Code(_) => before,
        }
    }
}

/// The usage ids of the keys that are down among the first `upto`, in the
/// order of the layout.
pub open spec fn codes_upto(state: Seq<bool>, layout: Seq<Key>, upto: int) -> Seq<u8>
    decreases upto,
{
    if upto <= 0 {
        Seq::empty()
    } else {
        let before = codes_upto(state, layout, upto - 1);
        match layout[upto - 1] {
            Key::Code(KeyCode(code)) => if state[upto - 1] && code != KEY_NONE {
                before.push(code)
            } else {
                before
            },
            Key::Mod(_) => before,
        }
    }
}

/// What slot `k` of a report lists: the code at that place, or nothing.
pub open spec fn slot_code(codes: Seq<u8>, k: int) -> u8 {
    if 0 <= k < codes.len() {
        codes[k]
    } else {
        0
    }
}

/// The report for a state under a layout: all modifier bits, and the first
/// six usage ids. Further keys are left out.
pub open spec fn report_of(state: Seq<bool>, layout: Seq<Key>) -> KeyboardReport {
    let codes = codes_upto(state, layout, NUM_SLOTS as int);
    KeyboardReport {
        modifier: mods_upto(state, layout, NUM_SLOTS as int),
        reserved: 0,
        leds: 0,
        keycodes: [
            slot_code(codes, 0),
            slot_code(codes, 1),
            slot_code(codes, 2),
            slot_code(codes, 3),
            slot_code(codes, 4),
            slot_code(codes, 5),
        ],
    }
}

/// Key `i` is down after the keys `locs` of the half that starts at `base`
/// were marked in `before`.
pub open spec fn marked(before: Seq<bool>, locs: Seq<u8>, base: int, i: int) -> bool {
    before[i] || (base <= i < base + NUM_KEYS && locs.contains((i - base) as u8))
}

proof fn lemma_take_contains(s: Seq<u8>, k: int, x: u8)
    requires
        0 <= k < s.len(),
    ensures
        s.take(k + 1).contains(x) <==> (s.take(k).contains(x) || s[k] == x),
{
    let long = s.take(k + 1);
    let short = s.take(k);
    if long.contains(x) {
        let j = choose|j: int| 0 <= j < long.len() && long[j] == x;
        if j < k {
            assert(short[j] == x);
        }
    }
    if short.contains(x) {
        let j = choose|j: int| 0 <= j < short.len() && short[j] == x;
        assert(long[j] == x);
    }
    if s[k] == x {
        assert(long[k] == x);
    }
}

impl KeyState {
    /// No key is down.
    pub fn new() -> (state: Self)
        ensures
            forall|i: int| 0 <= i < NUM_SLOTS ==> !#[trigger] state.0@[i],
    {
        KeyState([false;NUM_SLOTS])
    }

    /// Marks the keys of one half, which start at `base`, as down.
    fn mark(&mut self, locs: &[u8], base: usize)
        requires
            base + NUM_KEYS <= NUM_SLOTS,
        ensures
            forall|i: int|
                0 <= i < NUM_SLOTS ==> #[trigger] final(self).0@[i] == marked(
                    old(self).0@,
                    locs@,
                    base as int,
                    i,
                ),
    {
        let mut k: usize = 0;
        while k < locs.len()
            invariant
                k <= locs.len(),
                base + NUM_KEYS <= NUM_SLOTS,
                forall|i: int|
                    0 <= i < NUM_SLOTS ==> #[trigger] self.0@[i] == marked(
                        old(self).0@,
                        locs@.take(k as int),
                        base as int,
                        i,
                    ),
            decreases locs.len() - k,
        {
            let loc = locs[k] as usize;
            if loc < NUM_KEYS {
                self.0[base + loc] = true;
            }
            proof {
                let seen = locs@.take(k + 1);
                assert forall|i: int| 0 <= i < NUM_SLOTS implies #[trigger] self.0@[i] == marked(
                    old(self).0@,
                    seen,
                    base as int,
                    i,
                ) by {
                    if base <= i < base + NUM_KEYS {
                        lemma_take_contains(locs@, k as int, (i - base) as u8);
                    }
                }
            }
            k += 1;
        }
        assert(locs@.take(locs@.len() as int) =~= locs@);
    }

    /// The keys that are down when the halves report `left` and `right`.
    pub fn merge(left: &KeyUpdate, right: &KeyUpdate) -> (state: Self)
        ensures
            state.0@ == merged_state(left@, right@),
    {
        let mut state = KeyState::new();
        state.mark(left.locs(), 0);
        state.mark(right.locs(), NUM_KEYS);
        assert(state.0@ =~= merged_state(left@, right@));
        state
    }
}

impl KeyboardReport {
    /// The eight bytes that the host reads: modifier, reserved, six codes.
    pub fn to_bytes(&self) -> (bytes: [u8; 8])
        ensures
            bytes@ == seq![self.modifier, self.reserved] + self.keycodes@,
    {
        let bytes = [
            self.modifier,
            self.reserved,
            self.keycodes[0],
            self.keycodes[1],
            self.keycodes[2],
            self.keycodes[3],
            self.keycodes[4],
            self.keycodes[5],
        ];
        assert(bytes@ =~= seq![self.modifier, self.reserved] + self.keycodes@);
        bytes
    }
}

/// Turns the keys that are down into a report.
pub trait Keymap: Sized {
    /// The report for the keys that the halves report.
    spec fn report(&self, left: Seq<u8>, right: Seq<u8>) -> KeyboardReport;

    /// The map after it gave that report.
    spec fn after(&self, left: Seq<u8>, right: Seq<u8>) -> Self;

    fn get_report(&mut self, left: &KeyUpdate, right: &KeyUpdate) -> (report: KeyboardReport)
        ensures
            report == old(self).report(left@, right@),
            *final(self) == old(self).after(left@, right@),
    ;
}

/// The update to report from: the fresh one where one arrived, else the one
/// held so far.
pub fn latch(held: KeyUpdate, fresh: Option<KeyUpdate>) -> (now: KeyUpdate)
    ensures
        now == match fresh {
            Some(update) => update,
            None => held,
        },
{
    match fresh {
        Some(update) => update,
        None => held,
    }
}

} // verus!
