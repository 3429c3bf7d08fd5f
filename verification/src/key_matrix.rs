//! The matrix scan: one column after the other is driven, and the rows that
//! answer name the keys that are down.

use crate::key_update::{is_key_set, key_bytes, keys_new, keys_push, KeyUpdate, MatrixLoc};
use crate::proto::{MAX_KEYS, NUM_COLS, NUM_KEYS, NUM_ROWS};
use vstd::prelude::*;

verus! {

/// Milliseconds between two scans, and between two reports.
pub const UPDATE_RATE_MS: u32 = 20;

/// Microseconds that a column is driven before its rows are read.
pub const SETTLE_US: u32 = 20;

/// The coordinate of a key.
pub open spec fn loc_of(row: int, col: int) -> u8 {
    (row * NUM_COLS + col) as u8
}

/// The keys of column `col` that are down among the first `upto` rows.
pub open spec fn column_locs(rows: Seq<bool>, col: int, upto: int) -> Seq<u8>
    decreases upto,
{
    if upto <= 0 {
        Seq::empty()
    } else if rows[upto - 1] {
        column_locs(rows, col, upto - 1).push(loc_of(upto - 1, col))
    } else {
        column_locs(rows, col, upto - 1)
    }
}

/// What a scan holds while it runs.
pub struct KeyMatrixView {
    /// The keys found so far.
    pub found: Seq<u8>,
    /// The column to drive next.
    pub col: nat,
}

/// One scan of the matrix.
pub struct KeyMatrix {
    locs: heapless::Vec<u8, MAX_KEYS>,
    col: usize,
}

impl View for KeyMatrix {
    type V = KeyMatrixView;

    closed spec fn view(&self) -> KeyMatrixView {
        KeyMatrixView { found: key_bytes(self.locs), col: self.col as nat }
    }
}

/// The column of a key.
pub open spec fn col_of(loc: u8) -> int {
    loc as int % NUM_COLS as int
}

/// The row of a key.
pub open spec fn row_of(loc: u8) -> int {
    loc as int / NUM_COLS as int
}

/// The key exists and lies before row `row` of column `col`, columns
/// counted first.
pub open spec fn lies_before(loc: u8, col: int, row: int) -> bool {
    loc < NUM_KEYS && (col_of(loc) < col || (col_of(loc) == col && row_of(loc) < row))
}

/// The keys found lie in what was scanned so far, and none is there twice.
pub open spec fn scanned(found: Seq<u8>, col: int, row: int) -> bool {
    &&& forall|i: int| 0 <= i < found.len() ==> lies_before(#[trigger] found[i], col, row)
    &&& forall|i: int, j: int| 0 <= i < j < found.len() ==> found[i] != found[j]
}

impl KeyMatrix {
    #[verifier::type_invariant]
    spec fn well_formed(&self) -> bool {
        &&& self.col <= NUM_COLS
        &&& key_bytes(self.locs).len() <= NUM_ROWS * self.col
        &&& scanned(key_bytes(self.locs), self.col as int, 0)
    }

    /// A scan that has driven no column yet.
    pub fn new() -> (scan: Self)
        ensures
            scan@.found == Seq::<u8>::empty(),
            scan@.col == 0,
    {
        KeyMatrix { locs: keys_new(), col: 0 }
    }

    /// The column to drive next; `NUM_COLS` when all were driven.
    pub fn column(&self) -> (col: usize)
        ensures
            col == self@.col,
            col <= NUM_COLS,
    {
        proof {
            use_type_invariant(self);
        }
        self.col
    }

    /// Takes the rows that were read while the next column was driven: the
    /// keys of that column that are down are added, upper rows first.
    pub fn record(&mut self, rows: &[bool; NUM_ROWS])
        requires
            old(self)@.col < NUM_COLS,
        ensures
            final(self)@.found == old(self)@.found + column_locs(
                rows@,
                old(self)@.col as int,
                NUM_ROWS as int,
            ),
            final(self)@.col == old(self)@.col + 1,
    {
        proof {
            use_type_invariant(&*self);
        }
        let col = self.col;
        let ghost before = self@.found;
        let mut code_vec = keys_new();
        core::mem::swap(&mut self.locs, &mut code_vec);
        let mut row: usize = 0;
        while row < NUM_ROWS
            invariant
                row <= NUM_ROWS,
                col < NUM_COLS,
                key_bytes(code_vec).len() <= NUM_ROWS * col + row,
                key_bytes(code_vec) == before + column_locs(rows@, col as int, row as int),
                scanned(key_bytes(code_vec), col as int, row as int),
            decreases NUM_ROWS - row,
        {
            if rows[row] {
                let loc = MatrixLoc::new(row, col);
                let ghost held = key_bytes(code_vec);
                let _ = keys_push(&mut code_vec, loc.0);
                proof {
                    let now = key_bytes(code_vec);
                    assert(now == held.push(loc.0));
                    assert(col_of(loc.0) == col && row_of(loc.0) == row);
                    assert(now =~= before + column_locs(rows@, col as int, row + 1));
                    assert(scanned(now, col as int, row + 1)) by {
                        assert forall|i: int| 0 <= i < now.len() implies lies_before(
                            #[trigger] now[i],
                            col as int,
                            row + 1,
                        ) by {
                            if i < held.len() {
                                assert(now[i] == held[i]);
                            }
                        }
                        assert forall|i: int, j: int| 0 <= i < j < now.len() implies now[i]
                            != now[j] by {
                            assert(now[i] == held[i]);
                            if j < held.len() {
                                assert(now[j] == held[j]);
                            } else {
                                assert(lies_before(held[i], col as int, row as int));
                            }
                        }
                    }
                }
            }
            row += 1;
        }
        proof {
            let now = key_bytes(code_vec);
            assert(scanned(now, col + 1, 0)) by {
                assert forall|i: int| 0 <= i < now.len() implies lies_before(
                    #[trigger] now[i],
                    col + 1,
                    0,
                ) by {
                    assert(lies_before(now[i], col as int, NUM_ROWS as int));
                }
            }
        }
        self.col = col + 1;
        core::mem::swap(&mut self.locs, &mut code_vec);
    }

    /// Ends the scan: the keys that were found, each once. The scan starts
    /// over.
    pub fn finish(&mut self) -> (update: KeyUpdate)
        ensures
            update@ == old(self)@.found,
            is_key_set(update@),
            final(self)@.found == Seq::<u8>::empty(),
            final(self)@.col == 0,
    {
        proof {
            use_type_invariant(&*self);
        }
        let mut code_vec = keys_new();
        core::mem::swap(&mut self.locs, &mut code_vec);
        self.col = 0;
        KeyUpdate(code_vec)
    }
}

} // verus!
