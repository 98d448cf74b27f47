//! Wire-level core of a Phantasy Star Online Blue Burst / patch server:
//! the packet codec, the two transport ciphers and the packet catalog.
use vstd::prelude::*;

pub mod character;
pub mod codec;
pub mod crypto;
pub mod packet;
pub mod patch;
pub mod text;

use crate::codec::frame_cmd;

verus! {

/// Why a frame could not be parsed into a packet.
#[derive(Debug, Clone, Copy, PartialEq, Eq, Structural)]
pub enum PacketParseError {
    NotEnoughBytes,
    WrongPacketCommand,
    WrongPacketForServerType,
    WrongPacketSize(u16, usize),
    DataStructNotLargeEnough(u64, usize),
    InvalidValue,
}

/// A packet record: parsed from and serialized to one framed message.
pub trait PSOPacket: Sized {
    /// The command code in this record's frame header.
    spec fn command() -> u16;

    /// The frame that `as_bytes` produces.
    spec fn wire(&self) -> Seq<u8>;

    /// `r` is what `from_bytes` gives for the frame `data`.
    spec fn decodes(data: Seq<u8>, r: Result<Self, PacketParseError>) -> bool;

    /// `data` is a frame in the exact form that this record serializes to.
    spec fn well_formed(data: Seq<u8>) -> bool;

    /// The value's declared sizes fit its storage, so it can be serialized.
    spec fn encodable(&self) -> bool;

    fn from_bytes(data: &Vec<u8>) -> (r: Result<Self, PacketParseError>)
        ensures
            Self::decodes(data@, r),
    ;

    fn as_bytes(&self) -> (r: Vec<u8>)
        requires
            self.encodable(),
        ensures
            r@ == self.wire(),
    ;

    /// Serializing a parsed well-formed frame gives the frame back.
    proof fn lemma_reencode(data: Seq<u8>, p: Self)
        requires
            Self::well_formed(data),
            Self::decodes(data, Ok(p)),
        ensures
            p.encodable(),
            p.wire() == data,
    ;

    /// A frame whose command is not this record's is refused with
    /// `WrongPacketCommand`.
    proof fn lemma_wrong_command(data: Seq<u8>, r: Result<Self, PacketParseError>)
        requires
            data.len() >= 4,
            frame_cmd(data) != Self::command(),
            Self::decodes(data, r),
        ensures
            r == Err::<Self, PacketParseError>(PacketParseError::WrongPacketCommand),
    ;

    /// A well-formed frame cut short by one byte or more is refused with
    /// `WrongPacketSize` or `NotEnoughBytes`.
    proof fn lemma_truncated(data: Seq<u8>, k: int, r: Result<Self, PacketParseError>)
        requires
            Self::well_formed(data),
            0 <= k < data.len(),
            Self::decodes(data.subrange(0, k), r),
        ensures
            r matches Err(e) && (e is NotEnoughBytes || e is WrongPacketSize),
    ;
}

} // verus!
