//! The bus between the halves: which half does what, and the frames that
//! carry the key updates from one to the other.

use crate::errors::ProtoError;
use crate::key_update::KeyUpdate;
use crate::proto::WireSize;
use crate::proto_impl::{cs_decode, cs_decoded, cs_encode, cs_frame};
use vstd::prelude::*;

verus! {

/// The address that the listening half answers to.
pub const I2C_ADDRESS: u16 = 0x55;

/// Bytes of the longest frame of a key update.
pub const BUS_FRAME_MAX: usize = 37;

/// Which half a controller sits in. A strap pin tells.
#[derive(Debug, Clone, Copy, PartialEq, Eq)]
pub enum Hand {
    Left,
    Right,
}

impl Hand {
    /// The half that a strap level stands for: low is left, high is right.
    pub fn from_strap(high: bool) -> (hand: Hand)
        ensures
            hand == if high {
                Hand::Right
            } else {
                Hand::Left
            },
    {
        if high {
            Hand::Right
        } else {
            Hand::Left
        }
    }

    /// Only the left half reports keys to the host.
    pub fn reports_keys(&self) -> (reports: bool)
        ensures
            reports == (*self == Hand::Left),
    {
        match self {
            Hand::Left => true,
            Hand::Right => false,
        }
    }

    /// The left half listens on the bus, the right half sends.
    pub fn sends_on_bus(&self) -> (sends: bool)
        ensures
            sends == (*self == Hand::Right),
    {
        match self {
            Hand::Left => false,
            Hand::Right => true,
        }
    }
}

/// What the listening half is told that happened on the bus.
#[derive(Debug, Clone, Copy, PartialEq, Eq)]
pub enum BusEvent {
    /// A write to the general call address, of so many bytes.
    GeneralCall(usize),
    /// A write of so many bytes, followed by a read.
    WriteRead(usize),
    /// A read.
    Read,
    /// A write of so many bytes.
    Write(usize),
}

/// What the listening half makes of a bus event.
#[derive(Debug, PartialEq, Eq)]
pub enum Received {
    /// The other half's keys.
    Update(KeyUpdate),
    /// Not a write to this half; it is noted and passed over.
    Unexpected,
    /// A write that does not decode; it is noted and passed over.
    Fault(ProtoError),
}

/// The sending half.
#[derive(Debug, Clone, Copy, PartialEq, Eq)]
pub struct I2cMaster {
    pub address: u16,
}

impl I2cMaster {
    pub fn new() -> (master: Self)
        ensures
            master.address == I2C_ADDRESS,
    {
        I2cMaster { address: I2C_ADDRESS }
    }

    /// The bytes of the one write that carries `update` to the other half:
    /// its payload and checksum. The length of the write ends the frame.
    pub fn frame(&self, update: &KeyUpdate) -> (r: Result<Vec<u8>, ProtoError>)
        ensures
            r matches Ok(frame) && frame@ == cs_frame(KeyUpdate::payload(update@)) && frame@.len()
                <= BUS_FRAME_MAX && cs_decoded::<KeyUpdate>(frame@) == Ok::<Seq<u8>, ProtoError>(
                update@,
            ),
    {
        proof {
            KeyUpdate::lemma_sizes();
        }
        cs_encode::<KeyUpdate, BUS_FRAME_MAX>(update)
    }
}

/// The listening half.
#[derive(Debug, Clone, Copy, PartialEq, Eq)]
pub struct I2cSlave {
    pub address: u16,
}

/// What a bus event gives, with `buffer` holding the bytes written.
pub open spec fn received(event: BusEvent, buffer: Seq<u8>) -> Result<Option<Seq<u8>>, ProtoError> {
    match event {
        BusEvent::Write(len) => match cs_decoded::<KeyUpdate>(buffer.take(len as int)) {
            Ok(keys) => Ok(Some(keys)),
            Err(fault) => Err(fault),
        },
        _ => Ok(None),
    }
}

impl I2cSlave {
    pub fn new() -> (slave: Self)
        ensures
            slave.address == I2C_ADDRESS,
    {
        I2cSlave { address: I2C_ADDRESS }
    }

    /// Takes one bus event. Only a write to this half carries an update;
    /// `buffer` holds its bytes and is left as it was.
    pub fn on_event(&self, event: BusEvent, buffer: &mut [u8]) -> (r: Received)
        requires
            event matches BusEvent::Write(len) ==> len <= old(buffer)@.len(),
        ensures
            final(buffer)@ == old(buffer)@,
            match received(event, old(buffer)@) {
                Ok(Some(keys)) => r matches Received::Update(update) && update@ == keys,
                Ok(None) => r == Received::Unexpected,
                Err(fault) => r == Received::Fault(fault),
            },
    {
        match event {
            BusEvent::Write(len) => {
                let (written, rest) = buffer.split_at_mut(len);
                assert(written@ =~= old(buffer)@.take(len as int));
                let decoded = cs_decode::<KeyUpdate>(written);
                assert(buffer@ =~= old(buffer)@);
                match decoded {
                    Ok(update) => Received::Update(update),
                    Err(fault) => Received::Fault(fault),
                }
            },
            _ => Received::Unexpected,
        }
    }
}

} // verus!
