//! The packet envelope: one leading byte that says which record follows.

use crate::cursor::ByteCursor;
use crate::packets::records::{
    lemma_ack_round_trip, lemma_place_round_trip, lemma_player_state_round_trip,
    lemma_update_round_trip, place_fits, player_state_fits, update_fits, Ack, AckView,
    GameStateUpdate, GameStateUpdateView, Place, PlaceView, PlayerState, PlayerStateView,
};
use crate::packets::{DecodeError, EncodeError, PacketFrom, PacketTo};
use vstd::prelude::*;

verus! {

/// The leading byte of an acknowledgement.
pub const ACK: u8 = 0;

/// The leading byte of a player state.
pub const PLAYER_STATE: u8 = 1;

/// The leading byte of a placement.
pub const PLACE: u8 = 2;

/// The leading byte of a game state update.
pub const GAME_STATE_UPDATE: u8 = 3;

/// Any message of the protocol, or the mark of one that was not recognized.
#[derive(Debug, Clone, PartialEq, Eq)]
pub enum Packets {
    Ack(Ack),
    PlayerState(PlayerState),
    Place(Place),
    GameStateUpdate(GameStateUpdate),
    Unrecognized,
}

/// The mathematical value of a [`Packets`].
pub enum PacketsView {
    Ack(AckView),
    PlayerState(PlayerStateView),
    Place(PlaceView),
    GameStateUpdate(GameStateUpdateView),
    Unrecognized,
}

impl View for Packets {
    type V = PacketsView;

    open spec fn view(&self) -> PacketsView {
        match self {
            Packets::Ack(r) => PacketsView::Ack(r@),
            Packets::PlayerState(r) => PacketsView::PlayerState(r@),
            Packets::Place(r) => PacketsView::Place(r@),
            Packets::GameStateUpdate(r) => PacketsView::GameStateUpdate(r@),
            Packets::Unrecognized => PacketsView::Unrecognized,
        }
    }
}

/// The leading byte of a packet that has one.
pub open spec fn discriminant(v: PacketsView) -> u8
    recommends
        !(v is Unrecognized),
{
    match v {
        PacketsView::Ack(_) => ACK,
        PacketsView::PlayerState(_) => PLAYER_STATE,
        PacketsView::Place(_) => PLACE,
        PacketsView::GameStateUpdate(_) => GAME_STATE_UPDATE,
        PacketsView::Unrecognized => 0,
    }
}

/// Whether a leading byte names a record.
pub open spec fn recognized(tag: u8) -> bool {
    tag == ACK || tag == PLAYER_STATE || tag == PLACE || tag == GAME_STATE_UPDATE
}

/// What the record of a packet is written as; nothing for the unrecognized
/// one.
pub open spec fn record_wire(v: PacketsView) -> Seq<u8> {
    match v {
        PacketsView::Ack(r) => Ack::wire(r),
        PacketsView::PlayerState(r) => PlayerState::wire(r),
        PacketsView::Place(r) => Place::wire(r),
        PacketsView::GameStateUpdate(r) => GameStateUpdate::wire(r),
        PacketsView::Unrecognized => Seq::empty(),
    }
}

/// The length that the record of a packet declares; none for the
/// unrecognized one.
pub open spec fn record_wire_len(v: PacketsView) -> nat {
    match v {
        PacketsView::Ack(r) => Ack::wire_len(r),
        PacketsView::PlayerState(r) => PlayerState::wire_len(r),
        PacketsView::Place(r) => Place::wire_len(r),
        PacketsView::GameStateUpdate(r) => GameStateUpdate::wire_len(r),
        PacketsView::Unrecognized => 0,
    }
}

/// What the bytes after a leading byte read as, given that byte.
pub open spec fn parse_record(tag: u8, payload: Seq<u8>) -> Result<(PacketsView, nat), DecodeError> {
    if tag == ACK {
        match Ack::parse(payload) {
            Ok((r, n)) => Ok((PacketsView::Ack(r), n)),
            Err(e) => Err(e),
        }
    } else if tag == PLAYER_STATE {
        match PlayerState::parse(payload) {
            Ok((r, n)) => Ok((PacketsView::PlayerState(r), n)),
            Err(e) => Err(e),
        }
    } else if tag == PLACE {
        match Place::parse(payload) {
            Ok((r, n)) => Ok((PacketsView::Place(r), n)),
            Err(e) => Err(e),
        }
    } else if tag == GAME_STATE_UPDATE {
        match GameStateUpdate::parse(payload) {
            Ok((r, n)) => Ok((PacketsView::GameStateUpdate(r), n)),
            Err(e) => Err(e),
        }
    } else {
        Ok((PacketsView::Unrecognized, 0))
    }
}

impl PacketFrom for Packets {
    open spec fn parse(bytes: Seq<u8>) -> Result<(PacketsView, nat), DecodeError> {
        if bytes.len() < 1 {
            Err(DecodeError::Truncated)
        } else {
            match parse_record(bytes[0], bytes.skip(1)) {
                Ok((v, n)) => Ok((v, 1 + n)),
                Err(e) => Err(e),
            }
        }
    }

    proof fn lemma_parse_within(bytes: Seq<u8>) {
        if bytes.len() >= 1 {
            Ack::lemma_parse_within(bytes.skip(1));
            PlayerState::lemma_parse_within(bytes.skip(1));
            Place::lemma_parse_within(bytes.skip(1));
            GameStateUpdate::lemma_parse_within(bytes.skip(1));
        }
    }

    fn decode(input: &mut ByteCursor) -> (r: Result<Self, DecodeError>) {
        let start = input.position();
        let tag = match u8::decode(input) {
            Ok(v) => v,
            Err(e) => {
                return Err(e);
            },
        };
        proof {
            input.lemma_rest_after(*old(input), 1);
        }
        let decoded = if tag == ACK {
            match Ack::decode(input) {
                Ok(r) => Ok(Packets::Ack(r)),
                Err(e) => Err(e),
            }
        } else if tag == PLAYER_STATE {
            match PlayerState::decode(input) {
                Ok(r) => Ok(Packets::PlayerState(r)),
                Err(e) => Err(e),
            }
        } else if tag == PLACE {
            match Place::decode(input) {
                Ok(r) => Ok(Packets::Place(r)),
                Err(e) => Err(e),
            }
        } else if tag == GAME_STATE_UPDATE {
            match GameStateUpdate::decode(input) {
                Ok(r) => Ok(Packets::GameStateUpdate(r)),
                Err(e) => Err(e),
            }
        } else {
            Ok(Packets::Unrecognized)
        };
        if decoded.is_err() {
            input.rewind(start);
        }
        decoded
    }
}

impl PacketTo for Packets {
    open spec fn wire_len(v: PacketsView) -> nat {
        1 + record_wire_len(v)
    }

    open spec fn wire(v: PacketsView) -> Seq<u8> {
        if v is Unrecognized {
            Seq::empty()
        } else {
            seq![discriminant(v)] + record_wire(v)
        }
    }

    open spec fn refusal(v: PacketsView) -> Option<EncodeError> {
        match v {
            PacketsView::Ack(r) => Ack::refusal(r),
            PacketsView::PlayerState(r) => PlayerState::refusal(r),
            PacketsView::Place(r) => Place::refusal(r),
            PacketsView::GameStateUpdate(r) => GameStateUpdate::refusal(r),
            PacketsView::Unrecognized => Some(EncodeError::Unrecognized),
        }
    }

    proof fn lemma_wire_len(v: PacketsView) {
        match v {
            PacketsView::Ack(r) => Ack::lemma_wire_len(r),
            PacketsView::PlayerState(r) => PlayerState::lemma_wire_len(r),
            PacketsView::Place(r) => Place::lemma_wire_len(r),
            PacketsView::GameStateUpdate(r) => GameStateUpdate::lemma_wire_len(r),
            PacketsView::Unrecognized => {},
        }
    }

    fn length(self) -> (n: usize) {
        match self {
            Packets::Ack(r) => 1 + r.length(),
            Packets::PlayerState(r) => 1 + r.length(),
            Packets::Place(r) => 1 + r.length(),
            Packets::GameStateUpdate(r) => 1 + r.length(),
            Packets::Unrecognized => 1,
        }
    }

    fn encode(self, writer: &mut Vec<u8>) -> (r: Result<usize, EncodeError>) {
        proof {
            Self::lemma_wire_len(self@);
        }
        match self {
            Packets::Ack(r) => encode_tagged(ACK, r, writer),
            Packets::PlayerState(r) => encode_tagged(PLAYER_STATE, r, writer),
            Packets::Place(r) => encode_tagged(PLACE, r, writer),
            Packets::GameStateUpdate(r) => encode_tagged(GAME_STATE_UPDATE, r, writer),
            Packets::Unrecognized => Err(EncodeError::Unrecognized),
        }
    }
}

/// Writes a leading byte and the record behind it, or nothing where the
/// record cannot be written.
fn encode_tagged<R: PacketTo>(tag: u8, record: R, writer: &mut Vec<u8>) -> (r: Result<
    usize,
    EncodeError,
>)
    requires
        R::refusal(record@) is None ==> R::wire(record@).len() < usize::MAX,
    ensures
        match R::refusal(record@) {
            None => {
                &&& r == Ok::<usize, EncodeError>((1 + R::wire(record@).len()) as usize)
                &&& final(writer)@ == old(writer)@ + (seq![tag] + R::wire(record@))
            },
            Some(e) => {
                &&& r == Err::<usize, EncodeError>(e)
                &&& final(writer)@ == old(writer)@
            },
        },
{
    writer.push(tag);
    match record.encode(writer) {
        Ok(n) => {
            assert(writer@ =~= old(writer)@ + (seq![tag] + R::wire(record@)));
            Ok(1 + n)
        },
        Err(e) => {
            writer.pop();
            assert(writer@ =~= old(writer)@);
            Err(e)
        },
    }
}

/// Whether a packet is written without loss: it is a recognized one, short
/// enough to be written, and every character it holds as a single byte fits
/// one.
pub open spec fn faithful(v: PacketsView) -> bool {
    &&& Packets::refusal(v) is None
    &&& match v {
        PacketsView::Ack(_) => true,
        PacketsView::PlayerState(r) => player_state_fits(r),
        PacketsView::Place(r) => place_fits(r),
        PacketsView::GameStateUpdate(r) => update_fits(r),
        PacketsView::Unrecognized => false,
    }
}

/// Round trip: a packet that is written without loss is read back as the
/// same packet, from exactly the bytes it was written as, whatever follows
/// them.
pub proof fn lemma_round_trip(v: PacketsView, tail: Seq<u8>)
    requires
        faithful(v),
    ensures
        Packets::parse(Packets::wire(v) + tail) == Ok::<(PacketsView, nat), DecodeError>(
            (v, Packets::wire(v).len()),
        ),
{
    let bytes = Packets::wire(v) + tail;
    assert(bytes[0] == discriminant(v));
    assert(bytes.skip(1) =~= record_wire(v) + tail);
    match v {
        PacketsView::Ack(r) => lemma_ack_round_trip(r, tail),
        PacketsView::PlayerState(r) => lemma_player_state_round_trip(r, tail),
        PacketsView::Place(r) => lemma_place_round_trip(r, tail),
        PacketsView::GameStateUpdate(r) => lemma_update_round_trip(r, tail),
        PacketsView::Unrecognized => {},
    }
}

/// Discriminant stability: a recognized leading byte alone decides which
/// record the rest is read as, and the packet is that record or that
/// record's own failure.
pub proof fn lemma_dispatch(bytes: Seq<u8>)
    requires
        bytes.len() >= 1,
    ensures
        bytes[0] == ACK ==> match Ack::parse(bytes.skip(1)) {
            Ok((r, n)) => Packets::parse(bytes) == Ok::<(PacketsView, nat), DecodeError>(
                (PacketsView::Ack(r), 1 + n),
            ),
            Err(e) => Packets::parse(bytes) == Err::<(PacketsView, nat), DecodeError>(e),
        },
        bytes[0] == PLAYER_STATE ==> match PlayerState::parse(bytes.skip(1)) {
            Ok((r, n)) => Packets::parse(bytes) == Ok::<(PacketsView, nat), DecodeError>(
                (PacketsView::PlayerState(r), 1 + n),
            ),
            Err(e) => Packets::parse(bytes) == Err::<(PacketsView, nat), DecodeError>(e),
        },
        bytes[0] == PLACE ==> match Place::parse(bytes.skip(1)) {
            Ok((r, n)) => Packets::parse(bytes) == Ok::<(PacketsView, nat), DecodeError>(
                (PacketsView::Place(r), 1 + n),
            ),
            Err(e) => Packets::parse(bytes) == Err::<(PacketsView, nat), DecodeError>(e),
        },
        bytes[0] == GAME_STATE_UPDATE ==> match GameStateUpdate::parse(bytes.skip(1)) {
            Ok((r, n)) => Packets::parse(bytes) == Ok::<(PacketsView, nat), DecodeError>(
                (PacketsView::GameStateUpdate(r), 1 + n),
            ),
            Err(e) => Packets::parse(bytes) == Err::<(PacketsView, nat), DecodeError>(e),
        },
{
}

/// Unknown discriminant: a leading byte that names no record makes the
/// unrecognized packet, which takes up that one byte and no more.
pub proof fn lemma_unrecognized(bytes: Seq<u8>)
    requires
        bytes.len() >= 1,
        !recognized(bytes[0]),
    ensures
        Packets::parse(bytes) == Ok::<(PacketsView, nat), DecodeError>(
            (PacketsView::Unrecognized, 1),
        ),
{
}

} // verus!
