//! The keys that one half reports as pressed, and the record that carries
//! them over the bus between the halves.

use crate::proto::{Response, WireSize, MAX_KEYS, NUM_COLS, NUM_KEYS, NUM_ROWS};
use crate::wire::{
    get_tag, get_varint, lemma_limits, lemma_skip_skip, lemma_tag_round_trip, lemma_varint_len,
    lemma_varint_round_trip, put_varint, take_tag, take_varint, varint, FAULT_BAD_VALUE,
    FAULT_UNEXPECTED_END, U32_LAST_MAX, U32_WIDTH,
};
use vstd::prelude::*;

verus! {

/// Makes `heapless::Vec` known as a type whose inside is not looked at.
#[verifier::external_type_specification]
#[verifier::external_body]
#[verifier::reject_recursive_types(T)]
pub struct ExHeaplessVec<T, const N: usize>(heapless::Vec<T, N>);

/// The bytes that a bounded vector of key coordinates holds, in order.
pub uninterp spec fn key_bytes(keys: heapless::Vec<u8, MAX_KEYS>) -> Seq<u8>;

/// Calls `heapless::Vec::new`: a vector that holds nothing.
#[verifier::external_body]
pub(crate) fn keys_new() -> (keys: heapless::Vec<u8, MAX_KEYS>)
    ensures
        key_bytes(keys) == Seq::<u8>::empty(),
{
    heapless::Vec::new()
}

/// Calls `heapless::Vec::push`: the coordinate is added at the back. A
/// vector that is full stays as it is and hands the coordinate back.
#[verifier::external_body]
pub(crate) fn keys_push(keys: &mut heapless::Vec<u8, MAX_KEYS>, loc: u8) -> (r: Result<(), u8>)
    ensures
        match r {
            Ok(_) => key_bytes(*old(keys)).len() < MAX_KEYS && key_bytes(*final(keys))
                == key_bytes(*old(keys)).push(loc),
            Err(back) => key_bytes(*old(keys)).len() >= MAX_KEYS && back == loc && key_bytes(
                *final(keys),
            ) == key_bytes(*old(keys)),
        },
{
    keys.push(loc)
}

/// Calls `heapless::Vec::from_slice`: a vector holding a copy of `bytes`, or
/// `None` where they are more than the vector's capacity.
#[verifier::external_body]
fn keys_from_slice(bytes: &[u8]) -> (r: Option<heapless::Vec<u8, MAX_KEYS>>)
    ensures
        match r {
            Some(keys) => bytes@.len() <= MAX_KEYS && key_bytes(keys) == bytes@,
            None => bytes@.len() > MAX_KEYS,
        },
{
    heapless::Vec::from_slice(bytes).ok()
}

/// Calls `heapless::Vec::as_slice`: the bytes the vector holds, which are
/// never more than its capacity.
#[verifier::external_body]
fn keys_as_slice(keys: &heapless::Vec<u8, MAX_KEYS>) -> (bytes: &[u8])
    ensures
        bytes@ == key_bytes(*keys),
        bytes@.len() <= MAX_KEYS,
{
    keys.as_slice()
}

/// The payload of a list of key coordinates: its length, then the bytes.
pub open spec fn keys_payload(keys: Seq<u8>) -> Seq<u8> {
    varint(keys.len()) + keys
}

/// Reads a list of key coordinates. A list longer than `MAX_KEYS` is refused
/// once that many bytes and one more were there to read.
pub open spec fn keys_parse(b: Seq<u8>) -> Result<(Seq<u8>, nat), u8> {
    match take_varint(b, U32_WIDTH as nat, U32_LAST_MAX as nat) {
        Err(code) => Err(code),
        Ok((len, used)) => if len <= MAX_KEYS {
            if b.len() - used < len {
                Err(FAULT_UNEXPECTED_END)
            } else {
                Ok((b.subrange(used as int, (used + len) as int), used + len))
            }
        } else if b.len() - used <= MAX_KEYS {
            Err(FAULT_UNEXPECTED_END)
        } else {
            Err(FAULT_BAD_VALUE)
        },
    }
}

fn put_keys(keys: &heapless::Vec<u8, MAX_KEYS>, out: &mut Vec<u8>)
    ensures
        final(out)@ == old(out)@ + keys_payload(key_bytes(*keys)),
        key_bytes(*keys).len() <= MAX_KEYS,
{
    let bytes = keys_as_slice(keys);
    put_varint(bytes.len() as u32, out);
    let ghost head = out@;
    let mut i: usize = 0;
    while i < bytes.len()
        invariant
            i <= bytes.len(),
            out@ == head + bytes@.subrange(0, i as int),
        decreases bytes.len() - i,
    {
        out.push(bytes[i]);
        assert(out@ =~= head + bytes@.subrange(0, i + 1));
        i += 1;
    }
    assert(bytes@.subrange(0, bytes.len() as int) =~= bytes@);
    assert(out@ =~= old(out)@ + (varint(bytes@.len()) + bytes@));
}

fn get_keys(buf: &[u8], pos: usize) -> (r: Result<(heapless::Vec<u8, MAX_KEYS>, usize), u8>)
    requires
        pos <= buf.len(),
    ensures
        match keys_parse(buf@.skip(pos as int)) {
            Ok((v, used)) => r matches Ok((keys, next)) && key_bytes(keys) == v && next == pos
                + used && next <= buf.len() && v.len() <= MAX_KEYS,
            Err(code) => r matches Err(c) && c == code,
        },
{
    proof {
        lemma_limits();
    }
    let (len, next) = match get_varint(buf, pos, U32_WIDTH, U32_LAST_MAX) {
        Err(code) => { return Err(code); },
        Ok(found) => found,
    };
    let left = buf.len() - next;
    if len <= MAX_KEYS as u64 {
        if (left as u64) < len {
            return Err(FAULT_UNEXPECTED_END);
        }
        let end = next + len as usize;
        let bytes = vstd::slice::slice_subrange(buf, next, end);
        assert(bytes@ =~= buf@.skip(pos as int).subrange(next - pos, next - pos + len));
        match keys_from_slice(bytes) {
            Some(keys) => Ok((keys, end)),
            None => Err(FAULT_BAD_VALUE),
        }
    } else if left <= MAX_KEYS {
        Err(FAULT_UNEXPECTED_END)
    } else {
        Err(FAULT_BAD_VALUE)
    }
}

proof fn lemma_keys_payload_len(keys: Seq<u8>)
    requires
        keys.len() <= MAX_KEYS,
    ensures
        1 <= keys_payload(keys).len() <= MAX_KEYS + 1,
{
    lemma_varint_len(keys.len());
}

proof fn lemma_keys_round_trip(keys: Seq<u8>, rest: Seq<u8>)
    requires
        keys.len() <= MAX_KEYS,
    ensures
        keys_parse(keys_payload(keys) + rest) == Ok::<(Seq<u8>, nat), u8>(
            (keys, keys_payload(keys).len()),
        ),
{
    lemma_limits();
    lemma_varint_len(keys.len());
    lemma_varint_round_trip(keys.len(), U32_WIDTH as nat, U32_LAST_MAX as nat, keys + rest);
    let b = keys_payload(keys) + rest;
    assert(b =~= varint(keys.len()) + (keys + rest));
    assert(b.subrange(1, 1 + keys.len() as int) =~= keys);
}

/// A key of one half, by its place in the matrix: `row * NUM_COLS + col`.
#[derive(Debug, Clone, Copy, PartialEq, Eq)]
pub struct MatrixLoc(pub u8);

impl MatrixLoc {
    /// The key at a row and a column.
    pub fn new(row: usize, col: usize) -> (loc: Self)
        requires
            row < NUM_ROWS,
            col < NUM_COLS,
        ensures
            loc.0 == row * NUM_COLS + col,
            loc.0 < NUM_KEYS,
    {
        MatrixLoc((row * NUM_COLS + col) as u8)
    }

    /// The row of the key.
    pub fn row(&self) -> (row: usize)
        ensures
            row == self.0 as int / NUM_COLS as int,
    {
        self.0 as usize / NUM_COLS
    }

    /// The column of the key.
    pub fn col(&self) -> (col: usize)
        ensures
            col == self.0 as int % NUM_COLS as int,
    {
        self.0 as usize % NUM_COLS
    }
}

/// The keys that one half holds down. Its view is the list of coordinates.
#[derive(Debug, PartialEq, Eq)]
pub struct KeyUpdate(pub heapless::Vec<u8, MAX_KEYS>);

impl View for KeyUpdate {
    type V = Seq<u8>;

    open spec fn view(&self) -> Seq<u8> {
        key_bytes(self.0)
    }
}

/// A list of coordinates names each key at most once, and only keys that exist.
pub open spec fn is_key_set(keys: Seq<u8>) -> bool {
    &&& forall|i: int| 0 <= i < keys.len() ==> #[trigger] keys[i] < NUM_KEYS
    &&& forall|i: int, j: int| 0 <= i < j < keys.len() ==> keys[i] != keys[j]
}

impl KeyUpdate {
    /// No key is down.
    pub fn no_keys() -> (update: Self)
        ensures
            update@ == Seq::<u8>::empty(),
    {
        KeyUpdate(keys_new())
    }

    /// The listed keys are down; `None` where they are more than `MAX_KEYS`.
    pub fn from_slice(locs: &[u8]) -> (r: Option<Self>)
        ensures
            match r {
                Some(update) => locs@.len() <= MAX_KEYS && update@ == locs@,
                None => locs@.len() > MAX_KEYS,
            },
    {
        match keys_from_slice(locs) {
            Some(keys) => Some(KeyUpdate(keys)),
            None => None,
        }
    }

    /// The coordinates of the keys that are down.
    pub fn locs(&self) -> (locs: &[u8])
        ensures
            locs@ == self@,
            locs@.len() <= MAX_KEYS,
    {
        keys_as_slice(&self.0)
    }
}

impl WireSize for KeyUpdate {
    const WIRE_MAX_SIZE: usize = 39;

    const CS_MAX_SIZE: usize = 37;

    open spec fn payload_max() -> nat {
        36
    }

    open spec fn payload(v: Seq<u8>) -> Seq<u8> {
        keys_payload(v)
    }

    open spec fn fits(v: Seq<u8>) -> bool {
        v.len() <= MAX_KEYS
    }

    open spec fn parse(b: Seq<u8>) -> Result<(Seq<u8>, nat), u8> {
        keys_parse(b)
    }

    fn encode(&self, out: &mut Vec<u8>) {
        put_keys(&self.0, out);
    }

    fn decode(buf: &[u8], pos: usize) -> (r: Result<(Self, usize), u8>) {
        match get_keys(buf, pos) {
            Ok((keys, next)) => Ok((KeyUpdate(keys), next)),
            Err(code) => Err(code),
        }
    }

    proof fn lemma_sizes() {
    }

    proof fn lemma_payload_len(v: Seq<u8>) {
        lemma_keys_payload_len(v);
    }

    proof fn lemma_round_trip(v: Seq<u8>, rest: Seq<u8>) {
        lemma_keys_round_trip(v, rest);
    }
}

/// What the halves send each other: an answer, or the keys that are down.
#[derive(Debug, PartialEq, Eq)]
pub enum KeyResponse {
    Response(Response),
    KeyUpdate(heapless::Vec<u8, MAX_KEYS>),
}

/// What a `KeyResponse` holds.
pub enum KeyResponseView {
    Response(Response),
    KeyUpdate(Seq<u8>),
}

impl View for KeyResponse {
    type V = KeyResponseView;

    open spec fn view(&self) -> KeyResponseView {
        match *self {
            KeyResponse::Response(response) => KeyResponseView::Response(response),
            KeyResponse::KeyUpdate(keys) => KeyResponseView::KeyUpdate(key_bytes(keys)),
        }
    }
}

impl KeyResponse {
    /// The listed keys are down.
    pub fn keys<const N: usize>(key_codes: [u8; N]) -> (r: Self)
        requires
            N <= MAX_KEYS,
        ensures
            r@ == KeyResponseView::KeyUpdate(key_codes@),
    {
        match keys_from_slice(key_codes.as_slice()) {
            Some(keys) => KeyResponse::KeyUpdate(keys),
            None => vstd::pervasive::unreached(),
        }
    }

    /// No key is down.
    pub fn no_keys() -> (r: Self)
        ensures
            r@ == KeyResponseView::KeyUpdate(Seq::<u8>::empty()),
    {
        KeyResponse::KeyUpdate(keys_new())
    }
}

impl WireSize for KeyResponse {
    const WIRE_MAX_SIZE: usize = 40;

    const CS_MAX_SIZE: usize = 38;

    open spec fn payload_max() -> nat {
        37
    }

    open spec fn payload(v: KeyResponseView) -> Seq<u8> {
        match v {
            KeyResponseView::Response(response) => varint(0) + Response::payload(response),
            KeyResponseView::KeyUpdate(keys) => varint(1) + keys_payload(keys),
        }
    }

    open spec fn fits(v: KeyResponseView) -> bool {
        match v {
            KeyResponseView::Response(_) => true,
            KeyResponseView::KeyUpdate(keys) => keys.len() <= MAX_KEYS,
        }
    }

    open spec fn parse(b: Seq<u8>) -> Result<(KeyResponseView, nat), u8> {
        match take_tag(b) {
            Err(code) => Err(code),
            Ok((tag, used)) => if tag == 0 {
                match Response::parse(b.skip(used as int)) {
                    Err(code) => Err(code),
                    Ok((response, more)) => Ok((KeyResponseView::Response(response), used + more)),
                }
            } else if tag == 1 {
                match keys_parse(b.skip(used as int)) {
                    Err(code) => Err(code),
                    Ok((keys, more)) => Ok((KeyResponseView::KeyUpdate(keys), used + more)),
                }
            } else {
                Err(FAULT_BAD_VALUE)
            },
        }
    }

    fn encode(&self, out: &mut Vec<u8>) {
        match self {
            KeyResponse::Response(response) => {
                put_varint(0, out);
                response.encode(out);
                assert(out@ =~= old(out)@ + (varint(0) + Response::payload(*response)));
            },
            KeyResponse::KeyUpdate(keys) => {
                put_varint(1, out);
                put_keys(keys, out);
                assert(out@ =~= old(out)@ + (varint(1) + keys_payload(key_bytes(*keys))));
            },
        }
    }

    fn decode(buf: &[u8], pos: usize) -> (r: Result<(Self, usize), u8>) {
        let (tag, next) = match get_tag(buf, pos) {
            Err(code) => { return Err(code); },
            Ok(found) => found,
        };
        proof {
            lemma_skip_skip(buf@, pos as int, next - pos);
        }
        if tag == 0 {
            match Response::decode(buf, next) {
                Err(code) => Err(code),
                Ok((response, after)) => Ok((KeyResponse::Response(response), after)),
            }
        } else if tag == 1 {
            match get_keys(buf, next) {
                Err(code) => Err(code),
                Ok((keys, after)) => Ok((KeyResponse::KeyUpdate(keys), after)),
            }
        } else {
            Err(FAULT_BAD_VALUE)
        }
    }

    proof fn lemma_sizes() {
    }

    proof fn lemma_payload_len(v: KeyResponseView) {
        lemma_varint_len(0);
        lemma_varint_len(1);
        match v {
            KeyResponseView::Response(response) => {
                Response::lemma_payload_len(response);
            },
            KeyResponseView::KeyUpdate(keys) => {
                lemma_keys_payload_len(keys);
            },
        }
    }

    proof fn lemma_round_trip(v: KeyResponseView, rest: Seq<u8>) {
        match v {
            KeyResponseView::Response(response) => {
                let inner = Response::payload(response);
                lemma_tag_round_trip(0, inner + rest);
                assert(Self::payload(v) + rest =~= varint(0) + (inner + rest));
                Response::lemma_round_trip(response, rest);
            },
            KeyResponseView::KeyUpdate(keys) => {
                let inner = keys_payload(keys);
                lemma_tag_round_trip(1, inner + rest);
                assert(Self::payload(v) + rest =~= varint(1) + (inner + rest));
                lemma_keys_round_trip(keys, rest);
            },
        }
    }
}

} // verus!
