//! Variable-length integers, the building block of the message codec.
//!
//! An unsigned integer is written seven bits at a time, least significant
//! group first; every byte but the last has its top bit set. This is the
//! integer encoding of the postcard format, and the fault codes are the
//! numbers that the postcard crate gives its errors, so that a peer built on
//! that crate reads and reports alike.

use vstd::prelude::*;

verus! {

/// Fault code: the payload ended before the record did.
pub const FAULT_UNEXPECTED_END: u8 = 4;

/// Fault code: an integer ran past the width of its type.
pub const FAULT_BAD_VARINT: u8 = 5;

/// Fault code: a discriminant or a length names nothing the record can hold.
pub const FAULT_BAD_VALUE: u8 = 14;

/// Bytes that a `u16` may take.
pub const U16_WIDTH: u8 = 3;

/// The largest final byte of a `u16`.
pub const U16_LAST_MAX: u8 = 3;

/// Bytes that a `u32` may take.
pub const U32_WIDTH: u8 = 5;

/// The largest final byte of a `u32`.
pub const U32_LAST_MAX: u8 = 15;

/// The encoding of `v`.
pub open spec fn varint(v: nat) -> Seq<u8>
    decreases v,
{
    if v < 128 {
        seq![v as u8]
    } else {
        seq![(v % 128 + 128) as u8] + varint(v / 128)
    }
}

/// One more than the largest value that `width` bytes can carry when the
/// last of them may hold at most `last_max`.
pub open spec fn varint_limit(width: nat, last_max: nat) -> nat
    decreases width,
{
    if width == 0 {
        0
    } else if width == 1 {
        last_max + 1
    } else {
        128 * varint_limit((width - 1) as nat, last_max)
    }
}

/// Reads one integer from the front of `b`: its value and the number of bytes
/// it took, or the fault code. Encodings with redundant high groups are read
/// like the shortest one.
pub open spec fn take_varint(b: Seq<u8>, width: nat, last_max: nat) -> Result<(nat, nat), u8>
    decreases width,
{
    if width == 0 {
        Err(FAULT_BAD_VARINT)
    } else if b.len() == 0 {
        Err(FAULT_UNEXPECTED_END)
    } else if b[0] < 128 {
        if width == 1 && b[0] > last_max {
            Err(FAULT_BAD_VARINT)
        } else {
            Ok((b[0] as nat, 1nat))
        }
    } else {
        match take_varint(b.skip(1), (width - 1) as nat, last_max) {
            Ok((high, used)) => Ok((((b[0] - 128) + 128 * high) as nat, used + 1)),
            Err(code) => Err(code),
        }
    }
}

/// An encoding has at least one byte, and only its last byte has the top bit
/// clear.
pub proof fn lemma_varint_len(v: nat)
    ensures
        varint(v).len() >= 1,
        v < 128 ==> varint(v).len() == 1,
        forall|i: int| 0 <= i < varint(v).len() - 1 ==> #[trigger] varint(v)[i] >= 128,
        varint(v).last() < 128,
    decreases v,
{
    if v >= 128 {
        lemma_varint_len(v / 128);
        let tail = varint(v / 128);
        let whole = varint(v);
        assert(whole == seq![(v % 128 + 128) as u8] + tail);
        assert forall|i: int| 0 <= i < whole.len() - 1 implies #[trigger] whole[i] >= 128 by {
            if i > 0 {
                assert(whole[i] == tail[i - 1]);
            }
        }
        assert(whole.last() == tail.last());
    }
}

/// A value under the limit takes no more than `width` bytes.
pub proof fn lemma_varint_fits(v: nat, width: nat, last_max: nat)
    requires
        v < varint_limit(width, last_max),
        last_max < 128,
    ensures
        varint(v).len() <= width,
    decreases width,
{
    if width >= 2 && v >= 128 {
        lemma_varint_fits(v / 128, (width - 1) as nat, last_max);
    }
}

/// Some value fits in any positive number of bytes.
pub proof fn lemma_limit_positive(width: nat, last_max: nat)
    requires
        width >= 1,
    ensures
        varint_limit(width, last_max) >= 1,
    decreases width,
{
    if width >= 2 {
        lemma_limit_positive((width - 1) as nat, last_max);
    }
}

/// What was read is below the limit and took between one and `width` bytes.
pub proof fn lemma_take_varint_bounds(b: Seq<u8>, width: nat, last_max: nat)
    requires
        last_max < 128,
    ensures
        match take_varint(b, width, last_max) {
            Ok((v, used)) => v < varint_limit(width, last_max) && 1 <= used <= width && used
                <= b.len(),
            Err(code) => code == FAULT_UNEXPECTED_END || code == FAULT_BAD_VARINT,
        },
    decreases width,
{
    if width >= 1 && b.len() > 0 {
        if b[0] < 128 {
            if width >= 2 {
                lemma_limit_positive((width - 1) as nat, last_max);
            }
        } else {
            lemma_take_varint_bounds(b.skip(1), (width - 1) as nat, last_max);
        }
    }
}

/// Reading back what was written gives the value, whatever follows it.
pub proof fn lemma_varint_round_trip(v: nat, width: nat, last_max: nat, rest: Seq<u8>)
    requires
        v < varint_limit(width, last_max),
        last_max < 128,
    ensures
        take_varint(varint(v) + rest, width, last_max) == Ok::<(nat, nat), u8>(
            (v, varint(v).len()),
        ),
    decreases width,
{
    let b = varint(v) + rest;
    if v < 128 {
        assert(b[0] == v as u8);
    } else {
        assert(width >= 2);
        assert(b[0] == (v % 128 + 128) as u8);
        assert(b.skip(1) =~= varint(v / 128) + rest);
        lemma_varint_round_trip(v / 128, (width - 1) as nat, last_max, rest);
    }
}

/// The limits of the two widths are the ranges of `u16` and `u32`.
pub proof fn lemma_limits()
    ensures
        varint_limit(U16_WIDTH as nat, U16_LAST_MAX as nat) == 0x1_0000,
        varint_limit(U32_WIDTH as nat, U32_LAST_MAX as nat) == 0x1_0000_0000,
{
    reveal_with_fuel(varint_limit, 6);
}

/// Appends the encoding of `v` to `out`.
pub fn put_varint(v: u32, out: &mut Vec<u8>)
    ensures
        final(out)@ == old(out)@ + varint(v as nat),
{
    let mut rest: u32 = v;
    while rest >= 128
        invariant
            old(out)@ + varint(v as nat) == out@ + varint(rest as nat),
        decreases rest,
    {
        let ghost before = out@;
        let group: u8 = (rest % 128 + 128) as u8;
        out.push(group);
        proof {
            assert(before.push(group) + varint((rest / 128) as nat) =~= before + varint(
                rest as nat,
            ));
        }
        rest = rest / 128;
    }
    proof {
        assert(out@.push(rest as u8) =~= out@ + varint(rest as nat));
    }
    out.push(rest as u8);
}

/// Reads one integer at `pos`: its value and the position after it.
pub fn get_varint(buf: &[u8], pos: usize, width: u8, last_max: u8) -> (r: Result<(u64, usize), u8>)
    requires
        pos <= buf.len(),
        width <= 5,
        last_max < 128,
    ensures
        match take_varint(buf@.skip(pos as int), width as nat, last_max as nat) {
            Ok((v, used)) => r == Ok::<(u64, usize), u8>((v as u64, (pos + used) as usize)) && v
                < varint_limit(width as nat, last_max as nat) && pos + used <= buf.len(),
            Err(code) => r == Err::<(u64, usize), u8>(code),
        },
    decreases width,
{
    proof {
        lemma_take_varint_bounds(buf@.skip(pos as int), width as nat, last_max as nat);
        lemma_limit_u64(width as nat, last_max as nat);
    }
    if width == 0 {
        return Err(FAULT_BAD_VARINT);
    }
    if pos >= buf.len() {
        return Err(FAULT_UNEXPECTED_END);
    }
    let first: u8 = buf[pos];
    assert(buf@.skip(pos as int)[0] == first);
    if first < 128 {
        if width == 1 && first > last_max {
            Err(FAULT_BAD_VARINT)
        } else {
            Ok((first as u64, pos + 1))
        }
    } else {
        assert(buf@.skip(pos as int).skip(1) =~= buf@.skip(pos + 1));
        proof {
            lemma_limit_u64((width - 1) as nat, last_max as nat);
        }
        match get_varint(buf, pos + 1, width - 1, last_max) {
            Ok((high, next)) => Ok(((first - 128) as u64 + 128 * high, next)),
            Err(code) => Err(code),
        }
    }
}

/// Reads the discriminant of a tagged record.
pub open spec fn take_tag(b: Seq<u8>) -> Result<(nat, nat), u8> {
    take_varint(b, U32_WIDTH as nat, U32_LAST_MAX as nat)
}

/// Reads one byte.
pub open spec fn take_byte(b: Seq<u8>) -> Result<(u8, nat), u8> {
    if b.len() == 0 {
        Err(FAULT_UNEXPECTED_END)
    } else {
        Ok((b[0], 1nat))
    }
}

/// Reads `n` bytes as they are.
pub open spec fn take_bytes(b: Seq<u8>, n: nat) -> Result<(Seq<u8>, nat), u8> {
    if b.len() < n {
        Err(FAULT_UNEXPECTED_END)
    } else {
        Ok((b.subrange(0, n as int), n))
    }
}

/// Skipping twice is skipping the sum.
pub proof fn lemma_skip_skip(s: Seq<u8>, a: int, b: int)
    requires
        0 <= a,
        0 <= b,
        a + b <= s.len(),
    ensures
        s.skip(a).skip(b) == s.skip(a + b),
{
    assert(s.skip(a).skip(b) =~= s.skip(a + b));
}

/// A discriminant below 128 is one byte and reads back as itself.
pub proof fn lemma_tag_round_trip(tag: nat, rest: Seq<u8>)
    requires
        tag < 128,
    ensures
        varint(tag) == seq![tag as u8],
        take_tag(varint(tag) + rest) == Ok::<(nat, nat), u8>((tag, 1nat)),
        (varint(tag) + rest).skip(1) == rest,
{
    lemma_limits();
    lemma_varint_round_trip(tag, U32_WIDTH as nat, U32_LAST_MAX as nat, rest);
    assert((varint(tag) + rest).skip(1) =~= rest);
}

/// Reads the discriminant of a tagged record at `pos`.
pub fn get_tag(buf: &[u8], pos: usize) -> (r: Result<(u64, usize), u8>)
    requires
        pos <= buf.len(),
    ensures
        match take_tag(buf@.skip(pos as int)) {
            Ok((v, used)) => r == Ok::<(u64, usize), u8>((v as u64, (pos + used) as usize)) && v
                <= u32::MAX && pos + used <= buf.len() && used >= 1,
            Err(code) => r == Err::<(u64, usize), u8>(code),
        },
{
    proof {
        lemma_limits();
        lemma_take_varint_bounds(buf@.skip(pos as int), U32_WIDTH as nat, U32_LAST_MAX as nat);
    }
    get_varint(buf, pos, U32_WIDTH, U32_LAST_MAX)
}

/// Reads one byte at `pos`.
pub fn get_byte(buf: &[u8], pos: usize) -> (r: Result<(u8, usize), u8>)
    requires
        pos <= buf.len(),
    ensures
        match take_byte(buf@.skip(pos as int)) {
            Ok((v, used)) => r == Ok::<(u8, usize), u8>((v, (pos + used) as usize)) && pos + used
                <= buf.len(),
            Err(code) => r == Err::<(u8, usize), u8>(code),
        },
{
    if pos >= buf.len() {
        Err(FAULT_UNEXPECTED_END)
    } else {
        Ok((buf[pos], pos + 1))
    }
}

proof fn lemma_limit_u64(width: nat, last_max: nat)
    requires
        width <= 5,
        last_max < 128,
    ensures
        varint_limit(width, last_max) <= 0x8_0000_0000,
{
    reveal_with_fuel(varint_limit, 6);
}

} // verus!
