//! The binary packet protocol: what every value is written as, and what
//! every byte sequence is read as.

use crate::cursor::ByteCursor;
use vstd::prelude::*;

pub mod envelope;
pub mod primitives;
pub mod records;

pub use self::envelope::{Packets, PacketsView};
pub use self::records::{
    Ack, AckState, AckView, GameStateUpdate, GameStateUpdateView, Place, PlaceView, PlayerState,
    PlayerStateView,
};

verus! {

/// Why a byte sequence could not be read as a value.
#[derive(Debug, Clone, Copy, PartialEq, Eq)]
pub enum DecodeError {
    /// Fewer bytes remain than the value declares.
    Truncated,
    /// The bytes of a string are not UTF-8.
    InvalidUtf8,
}

/// Why a value could not be written.
#[derive(Debug, Clone, Copy, PartialEq, Eq)]
pub enum EncodeError {
    /// A string or sequence is longer than its 16-bit prefix can declare.
    TooLong,
    /// The packet is the unrecognized one, which has no encoding.
    Unrecognized,
}

/// A value that can be read from a byte cursor.
pub trait PacketFrom: Sized + View {
    /// What the start of `bytes` reads as: the value and the number of bytes
    /// it takes up, or the reason why it is no value.
    spec fn parse(bytes: Seq<u8>) -> Result<(Self::V, nat), DecodeError>;

    /// A value never takes up more bytes than there are.
    proof fn lemma_parse_within(bytes: Seq<u8>)
        ensures
            Self::parse(bytes) matches Ok((_, n)) ==> n <= bytes.len(),
    ;

    /// Reads one value at the cursor and steps over its bytes. On failure the
    /// cursor stays where it was.
    fn decode(input: &mut ByteCursor) -> (r: Result<Self, DecodeError>)
        ensures
            final(input).bytes() == old(input).bytes(),
            final(input).offset() <= final(input).bytes().len(),
            match Self::parse(old(input).rest()) {
                Ok((v, n)) => {
                    &&& r matches Ok(x) && x@ == v
                    &&& final(input).offset() == old(input).offset() + n
                },
                Err(e) => {
                    &&& r matches Err(x) && x == e
                    &&& final(input).offset() == old(input).offset()
                },
            },
    ;
}

/// A value that can be written to a byte sink.
pub trait PacketTo: Sized + View {
    /// The number of bytes the value declares for itself.
    spec fn wire_len(v: Self::V) -> nat;

    /// The bytes the value is written as, where it can be written.
    spec fn wire(v: Self::V) -> Seq<u8>;

    /// Why the value cannot be written, if it cannot.
    spec fn refusal(v: Self::V) -> Option<EncodeError>;

    /// A value that can be written is written in as many bytes as it declares.
    proof fn lemma_wire_len(v: Self::V)
        ensures
            Self::refusal(v) is None ==> Self::wire(v).len() == Self::wire_len(v),
    ;

    /// The number of bytes the value declares for itself: as many as
    /// `encode` writes, where it writes any.
    fn length(self) -> (n: usize)
        requires
            Self::wire_len(self@) <= usize::MAX,
        ensures
            n == Self::wire_len(self@),
    ;

    /// Appends the value's bytes to `writer` and returns how many they are.
    /// A value that cannot be written leaves `writer` as it was.
    fn encode(self, writer: &mut Vec<u8>) -> (r: Result<usize, EncodeError>)
        ensures
            match Self::refusal(self@) {
                None => {
                    &&& r == Ok::<usize, EncodeError>(Self::wire(self@).len() as usize)
                    &&& final(writer)@ == old(writer)@ + Self::wire(self@)
                },
                Some(e) => {
                    &&& r == Err::<usize, EncodeError>(e)
                    &&& final(writer)@ == old(writer)@
                },
            },
    ;
}

} // verus!
