//! The records of the protocol: ordered fields, written one after another
//! with nothing between them.

use crate::cursor::ByteCursor;
use crate::packets::primitives::{
    char_fits, chars_fit, lemma_char_round_trip, lemma_chars_round_trip,
    lemma_string_round_trip, lemma_u16_round_trip, lemma_u32_round_trip, lemma_u8_round_trip,
    MAX_PREFIXED,
};
use crate::packets::{DecodeError, EncodeError, PacketFrom, PacketTo};
use vstd::prelude::*;

verus! {

/// What an acknowledgement says.
#[derive(Debug, Clone, Copy, PartialEq, Eq, Structural)]
pub enum AckState {
    Success,
    Confirm,
    Turn,
    Failure,
}

impl View for AckState {
    type V = AckState;

    open spec fn view(&self) -> AckState {
        *self
    }
}

/// The byte an acknowledgement state is written as.
pub open spec fn ack_state_byte(s: AckState) -> u8 {
    match s {
        AckState::Success => 0,
        AckState::Confirm => 1,
        AckState::Turn => 2,
        AckState::Failure => 3,
    }
}

/// The acknowledgement state a byte is read as. A byte that stands for no
/// state is read as a failure.
pub open spec fn byte_ack_state(b: u8) -> AckState {
    if b == 0 {
        AckState::Success
    } else if b == 1 {
        AckState::Confirm
    } else if b == 2 {
        AckState::Turn
    } else {
        AckState::Failure
    }
}

impl PacketFrom for AckState {
    open spec fn parse(bytes: Seq<u8>) -> Result<(AckState, nat), DecodeError> {
        if bytes.len() < 1 {
            Err(DecodeError::Truncated)
        } else {
            Ok((byte_ack_state(bytes[0]), 1))
        }
    }

    proof fn lemma_parse_within(bytes: Seq<u8>) {
    }

    fn decode(input: &mut ByteCursor) -> (r: Result<Self, DecodeError>) {
        match u8::decode(input) {
            Ok(0) => Ok(AckState::Success),
            Ok(1) => Ok(AckState::Confirm),
            Ok(2) => Ok(AckState::Turn),
            Ok(_) => Ok(AckState::Failure),
            Err(e) => Err(e),
        }
    }
}

impl PacketTo for AckState {
    open spec fn wire_len(v: AckState) -> nat {
        1
    }

    open spec fn wire(v: AckState) -> Seq<u8> {
        seq![ack_state_byte(v)]
    }

    open spec fn refusal(v: AckState) -> Option<EncodeError> {
        None
    }

    proof fn lemma_wire_len(v: AckState) {
    }

    fn length(self) -> (n: usize) {
        1
    }

    fn encode(self, writer: &mut Vec<u8>) -> (r: Result<usize, EncodeError>) {
        let byte: u8 = match self {
            AckState::Success => 0,
            AckState::Confirm => 1,
            AckState::Turn => 2,
            AckState::Failure => 3,
        };
        byte.encode(writer)
    }
}

/// An acknowledgement state that was written is read back, whatever follows.
pub proof fn lemma_ack_state_round_trip(s: AckState, tail: Seq<u8>)
    ensures
        AckState::parse(AckState::wire(s) + tail) == Ok::<(AckState, nat), DecodeError>((s, 1)),
{
}

/// An acknowledgement: a connection and what is acknowledged to it.
#[derive(Debug, Clone, PartialEq, Eq)]
pub struct Ack {
    id: u16,
    state: AckState,
}

/// The mathematical value of an [`Ack`].
pub struct AckView {
    pub id: u16,
    pub state: AckState,
}

impl View for Ack {
    type V = AckView;

    closed spec fn view(&self) -> AckView {
        AckView { id: self.id, state: self.state }
    }
}

impl Ack {
    pub fn new(id: u16, state: AckState) -> (ack: Ack)
        ensures
            ack@ == (AckView { id, state }),
    {
        Ack { id, state }
    }

    /// The connection the acknowledgement is for.
    pub fn id(&self) -> (id: u16)
        ensures
            id == self@.id,
    {
        self.id
    }

    /// What is acknowledged.
    pub fn state(&self) -> (state: AckState)
        ensures
            state == self@.state,
    {
        self.state
    }
}

impl PacketFrom for Ack {
    open spec fn parse(bytes: Seq<u8>) -> Result<(AckView, nat), DecodeError> {
        match u16::parse(bytes) {
            Err(e) => Err(e),
            Ok((id, n1)) => match AckState::parse(bytes.skip(n1 as int)) {
                Err(e) => Err(e),
                Ok((state, n2)) => Ok((AckView { id, state }, n1 + n2)),
            },
        }
    }

    proof fn lemma_parse_within(bytes: Seq<u8>) {
    }

    fn decode(input: &mut ByteCursor) -> (r: Result<Self, DecodeError>) {
        let start = input.position();
        let id = match u16::decode(input) {
            Ok(v) => v,
            Err(e) => {
                return Err(e);
            },
        };
        proof {
            input.lemma_rest_after(*old(input), 2);
        }
        let state = match AckState::decode(input) {
            Ok(v) => v,
            Err(e) => {
                input.rewind(start);
                return Err(e);
            },
        };
        Ok(Ack { id, state })
    }
}

impl PacketTo for Ack {
    open spec fn wire_len(v: AckView) -> nat {
        u16::wire_len(v.id) + AckState::wire_len(v.state)
    }

    open spec fn wire(v: AckView) -> Seq<u8> {
        u16::wire(v.id) + AckState::wire(v.state)
    }

    open spec fn refusal(v: AckView) -> Option<EncodeError> {
        None
    }

    proof fn lemma_wire_len(v: AckView) {
    }

    fn length(self) -> (n: usize) {
        self.id.length() + self.state.length()
    }

    fn encode(self, writer: &mut Vec<u8>) -> (r: Result<usize, EncodeError>) {
        let id = self.id.encode(writer)?;
        let state = self.state.encode(writer)?;
        assert(writer@ =~= old(writer)@ + Self::wire(self@));
        Ok(id + state)
    }
}

/// An acknowledgement that was written is read back, whatever follows it.
pub proof fn lemma_ack_round_trip(v: AckView, tail: Seq<u8>)
    ensures
        Ack::parse(Ack::wire(v) + tail) == Ok::<(AckView, nat), DecodeError>(
            (v, Ack::wire(v).len()),
        ),
{
    let bytes = Ack::wire(v) + tail;
    let after_id = AckState::wire(v.state) + tail;
    assert(bytes =~= u16::wire(v.id) + after_id);
    lemma_u16_round_trip(v.id, after_id);
    assert(bytes.skip(2) =~= after_id);
    lemma_ack_state_round_trip(v.state, tail);
}

/// A tile placed on the board.
#[derive(Debug, Clone, PartialEq, Eq)]
pub struct Place {
    id: u16,
    tile: char,
    x: u32,
    y: u32,
}

/// The mathematical value of a [`Place`].
pub struct PlaceView {
    pub id: u16,
    pub tile: char,
    pub x: u32,
    pub y: u32,
}

impl View for Place {
    type V = PlaceView;

    closed spec fn view(&self) -> PlaceView {
        PlaceView { id: self.id, tile: self.tile, x: self.x, y: self.y }
    }
}

impl Place {
    pub fn new(id: u16, tile: char, x: u32, y: u32) -> (place: Place)
        ensures
            place@ == (PlaceView { id, tile, x, y }),
    {
        Place { id, tile, x, y }
    }

    /// The connection that placed the tile.
    pub fn id(&self) -> (id: u16)
        ensures
            id == self@.id,
    {
        self.id
    }

    /// The tile that was placed.
    pub fn tile(&self) -> (tile: char)
        ensures
            tile == self@.tile,
    {
        self.tile
    }

    /// The column of the cell.
    pub fn x(&self) -> (x: u32)
        ensures
            x == self@.x,
    {
        self.x
    }

    /// The row of the cell.
    pub fn y(&self) -> (y: u32)
        ensures
            y == self@.y,
    {
        self.y
    }
}

impl PacketFrom for Place {
    open spec fn parse(bytes: Seq<u8>) -> Result<(PlaceView, nat), DecodeError> {
        match u16::parse(bytes) {
            Err(e) => Err(e),
            Ok((id, n1)) => match char::parse(bytes.skip(n1 as int)) {
                Err(e) => Err(e),
                Ok((tile, n2)) => match u32::parse(bytes.skip((n1 + n2) as int)) {
                    Err(e) => Err(e),
                    Ok((x, n3)) => match u32::parse(bytes.skip((n1 + n2 + n3) as int)) {
                        Err(e) => Err(e),
                        Ok((y, n4)) => Ok((PlaceView { id, tile, x, y }, n1 + n2 + n3 + n4)),
                    },
                },
            },
        }
    }

    proof fn lemma_parse_within(bytes: Seq<u8>) {
    }

    fn decode(input: &mut ByteCursor) -> (r: Result<Self, DecodeError>) {
        let start = input.position();
        let id = match u16::decode(input) {
            Ok(v) => v,
            Err(e) => {
                return Err(e);
            },
        };
        proof {
            input.lemma_rest_after(*old(input), 2);
        }
        let tile = match char::decode(input) {
            Ok(v) => v,
            Err(e) => {
                input.rewind(start);
                return Err(e);
            },
        };
        proof {
            input.lemma_rest_after(*old(input), 3);
        }
        let x = match u32::decode(input) {
            Ok(v) => v,
            Err(e) => {
                input.rewind(start);
                return Err(e);
            },
        };
        proof {
            input.lemma_rest_after(*old(input), 7);
        }
        let y = match u32::decode(input) {
            Ok(v) => v,
            Err(e) => {
                input.rewind(start);
                return Err(e);
            },
        };
        Ok(Place { id, tile, x, y })
    }
}

impl PacketTo for Place {
    open spec fn wire_len(v: PlaceView) -> nat {
        u16::wire_len(v.id) + char::wire_len(v.tile) + u32::wire_len(v.x) + u32::wire_len(v.y)
    }

    open spec fn wire(v: PlaceView) -> Seq<u8> {
        u16::wire(v.id) + char::wire(v.tile) + u32::wire(v.x) + u32::wire(v.y)
    }

    open spec fn refusal(v: PlaceView) -> Option<EncodeError> {
        None
    }

    proof fn lemma_wire_len(v: PlaceView) {
    }

    fn length(self) -> (n: usize) {
        self.id.length() + self.tile.length() + self.x.length() + self.y.length()
    }

    fn encode(self, writer: &mut Vec<u8>) -> (r: Result<usize, EncodeError>) {
        let id = self.id.encode(writer)?;
        let tile = self.tile.encode(writer)?;
        let x = self.x.encode(writer)?;
        let y = self.y.encode(writer)?;
        assert(writer@ =~= old(writer)@ + Self::wire(self@));
        Ok(id + tile + x + y)
    }
}

/// Whether a placement is written without loss: its tile fits one byte.
pub open spec fn place_fits(v: PlaceView) -> bool {
    char_fits(v.tile)
}

/// A placement whose tile fits one byte is read back as written, whatever
/// follows it.
pub proof fn lemma_place_round_trip(v: PlaceView, tail: Seq<u8>)
    requires
        place_fits(v),
    ensures
        Place::parse(Place::wire(v) + tail) == Ok::<(PlaceView, nat), DecodeError>(
            (v, Place::wire(v).len()),
        ),
{
    let bytes = Place::wire(v) + tail;
    let after_x = u32::wire(v.y) + tail;
    let after_tile = u32::wire(v.x) + after_x;
    let after_id = char::wire(v.tile) + after_tile;
    assert(bytes =~= u16::wire(v.id) + after_id);
    lemma_u16_round_trip(v.id, after_id);
    assert(bytes.skip(2) =~= after_id);
    lemma_char_round_trip(v.tile, after_tile);
    assert(bytes.skip(3) =~= after_tile);
    lemma_u32_round_trip(v.x, after_x);
    assert(bytes.skip(7) =~= after_x);
    lemma_u32_round_trip(v.y, tail);
}

/// The tiles that lie on the board.
#[derive(Debug, Clone, PartialEq, Eq)]
pub struct GameStateUpdate {
    id: u16,
    placed: Vec<char>,
}

/// The mathematical value of a [`GameStateUpdate`].
pub struct GameStateUpdateView {
    pub id: u16,
    pub placed: Seq<char>,
}

impl View for GameStateUpdate {
    type V = GameStateUpdateView;

    closed spec fn view(&self) -> GameStateUpdateView {
        GameStateUpdateView { id: self.id, placed: self.placed@ }
    }
}

impl GameStateUpdate {
    pub fn new(id: u16, placed: Vec<char>) -> (update: GameStateUpdate)
        ensures
            update@ == (GameStateUpdateView { id, placed: placed@ }),
    {
        GameStateUpdate { id, placed }
    }

    /// The connection the update is for.
    pub fn id(&self) -> (id: u16)
        ensures
            id == self@.id,
    {
        self.id
    }

    /// The tiles on the board.
    pub fn placed(&self) -> (placed: &Vec<char>)
        ensures
            placed@ == self@.placed,
    {
        &self.placed
    }
}

impl PacketFrom for GameStateUpdate {
    open spec fn parse(bytes: Seq<u8>) -> Result<(GameStateUpdateView, nat), DecodeError> {
        match u16::parse(bytes) {
            Err(e) => Err(e),
            Ok((id, n1)) => match Vec::<char>::parse(bytes.skip(n1 as int)) {
                Err(e) => Err(e),
                Ok((placed, n2)) => Ok((GameStateUpdateView { id, placed }, n1 + n2)),
            },
        }
    }

    proof fn lemma_parse_within(bytes: Seq<u8>) {
        Vec::<char>::lemma_parse_within(bytes.skip(2));
    }

    fn decode(input: &mut ByteCursor) -> (r: Result<Self, DecodeError>) {
        let start = input.position();
        let id = match u16::decode(input) {
            Ok(v) => v,
            Err(e) => {
                return Err(e);
            },
        };
        proof {
            input.lemma_rest_after(*old(input), 2);
        }
        let placed = match Vec::<char>::decode(input) {
            Ok(v) => v,
            Err(e) => {
                input.rewind(start);
                return Err(e);
            },
        };
        Ok(GameStateUpdate { id, placed })
    }
}

impl PacketTo for GameStateUpdate {
    open spec fn wire_len(v: GameStateUpdateView) -> nat {
        u16::wire_len(v.id) + Vec::<char>::wire_len(v.placed)
    }

    open spec fn wire(v: GameStateUpdateView) -> Seq<u8> {
        u16::wire(v.id) + Vec::<char>::wire(v.placed)
    }

    open spec fn refusal(v: GameStateUpdateView) -> Option<EncodeError> {
        Vec::<char>::refusal(v.placed)
    }

    proof fn lemma_wire_len(v: GameStateUpdateView) {
    }

    fn length(self) -> (n: usize) {
        self.id.length() + self.placed.length()
    }

    fn encode(self, writer: &mut Vec<u8>) -> (r: Result<usize, EncodeError>) {
        if self.placed.len() > MAX_PREFIXED {
            return Err(EncodeError::TooLong);
        }
        let id = self.id.encode(writer)?;
        let placed = self.placed.encode(writer)?;
        assert(writer@ =~= old(writer)@ + Self::wire(self@));
        Ok(id + placed)
    }
}

/// Whether an update is written without loss: each of its tiles fits one
/// byte.
pub open spec fn update_fits(v: GameStateUpdateView) -> bool {
    chars_fit(v.placed)
}

/// An update that can be written, with tiles that fit one byte each, is read
/// back as written, whatever follows it.
pub proof fn lemma_update_round_trip(v: GameStateUpdateView, tail: Seq<u8>)
    requires
        GameStateUpdate::refusal(v) is None,
        update_fits(v),
    ensures
        GameStateUpdate::parse(GameStateUpdate::wire(v) + tail) == Ok::<
            (GameStateUpdateView, nat),
            DecodeError,
        >((v, GameStateUpdate::wire(v).len())),
{
    let bytes = GameStateUpdate::wire(v) + tail;
    let after_id = Vec::<char>::wire(v.placed) + tail;
    assert(bytes =~= u16::wire(v.id) + after_id);
    lemma_u16_round_trip(v.id, after_id);
    assert(bytes.skip(2) =~= after_id);
    lemma_chars_round_trip(v.placed, tail);
}

/// What one player holds and has scored.
#[derive(Debug, Clone, PartialEq, Eq)]
pub struct PlayerState {
    id: u16,
    slot: u8,
    username: String,
    tiles: Vec<char>,
    score: u8,
}

/// The mathematical value of a [`PlayerState`].
pub struct PlayerStateView {
    pub id: u16,
    pub slot: u8,
    pub username: Seq<char>,
    pub tiles: Seq<char>,
    pub score: u8,
}

impl View for PlayerState {
    type V = PlayerStateView;

    closed spec fn view(&self) -> PlayerStateView {
        PlayerStateView {
            id: self.id,
            slot: self.slot,
            username: self.username@,
            tiles: self.tiles@,
            score: self.score,
        }
    }
}

impl PlayerState {
    pub fn new(id: u16, slot: u8, username: String, tiles: Vec<char>, score: u8) -> (state:
        PlayerState)
        ensures
            state@ == (PlayerStateView {
                id,
                slot,
                username: username@,
                tiles: tiles@,
                score,
            }),
    {
        PlayerState { id, slot, username, tiles, score }
    }

    /// The connection of the player.
    pub fn id(&self) -> (id: u16)
        ensures
            id == self@.id,
    {
        self.id
    }

    /// The seat of the player at the table.
    pub fn slot(&self) -> (slot: u8)
        ensures
            slot == self@.slot,
    {
        self.slot
    }

    /// The name of the player.
    pub fn username(&self) -> (username: &str)
        ensures
            username@ == self@.username,
    {
        self.username.as_str()
    }

    /// The tiles on the player's rack.
    pub fn tiles(&self) -> (tiles: &Vec<char>)
        ensures
            tiles@ == self@.tiles,
    {
        &self.tiles
    }

    /// What the player has scored.
    pub fn score(&self) -> (score: u8)
        ensures
            score == self@.score,
    {
        self.score
    }
}

impl PacketFrom for PlayerState {
    open spec fn parse(bytes: Seq<u8>) -> Result<(PlayerStateView, nat), DecodeError> {
        match u16::parse(bytes) {
            Err(e) => Err(e),
            Ok((id, n1)) => match u8::parse(bytes.skip(n1 as int)) {
                Err(e) => Err(e),
                Ok((slot, n2)) => match String::parse(bytes.skip((n1 + n2) as int)) {
                    Err(e) => Err(e),
                    Ok((username, n3)) => match Vec::<char>::parse(
                        bytes.skip((n1 + n2 + n3) as int),
                    ) {
                        Err(e) => Err(e),
                        Ok((tiles, n4)) => match u8::parse(
                            bytes.skip((n1 + n2 + n3 + n4) as int),
                        ) {
                            Err(e) => Err(e),
                            Ok((score, n5)) => Ok(
                                (
                                    PlayerStateView { id, slot, username, tiles, score },
                                    n1 + n2 + n3 + n4 + n5,
                                ),
                            ),
                        },
                    },
                },
            },
        }
    }

    proof fn lemma_parse_within(bytes: Seq<u8>) {
        String::lemma_parse_within(bytes.skip(3));
        if let Ok((_, n3)) = String::parse(bytes.skip(3)) {
            Vec::<char>::lemma_parse_within(bytes.skip((3 + n3) as int));
        }
    }

    fn decode(input: &mut ByteCursor) -> (r: Result<Self, DecodeError>) {
        let start = input.position();
        let ghost rest = input.rest();
        let id = match u16::decode(input) {
            Ok(v) => v,
            Err(e) => {
                return Err(e);
            },
        };
        proof {
            input.lemma_rest_after(*old(input), 2);
        }
        let slot = match u8::decode(input) {
            Ok(v) => v,
            Err(e) => {
                input.rewind(start);
                return Err(e);
            },
        };
        proof {
            input.lemma_rest_after(*old(input), 3);
        }
        let ghost n3 = String::parse(rest.skip(3))->Ok_0.1;
        let username = match String::decode(input) {
            Ok(v) => v,
            Err(e) => {
                input.rewind(start);
                return Err(e);
            },
        };
        proof {
            input.lemma_rest_after(*old(input), 3 + n3);
        }
        let ghost n4 = Vec::<char>::parse(rest.skip((3 + n3) as int))->Ok_0.1;
        let tiles = match Vec::<char>::decode(input) {
            Ok(v) => v,
            Err(e) => {
                input.rewind(start);
                return Err(e);
            },
        };
        proof {
            input.lemma_rest_after(*old(input), 3 + n3 + n4);
        }
        let score = match u8::decode(input) {
            Ok(v) => v,
            Err(e) => {
                input.rewind(start);
                return Err(e);
            },
        };
        Ok(PlayerState { id, slot, username, tiles, score })
    }
}

impl PacketTo for PlayerState {
    open spec fn wire_len(v: PlayerStateView) -> nat {
        u16::wire_len(v.id) + u8::wire_len(v.slot) + String::wire_len(v.username) + Vec::<
            char,
        >::wire_len(v.tiles) + u8::wire_len(v.score)
    }

    open spec fn wire(v: PlayerStateView) -> Seq<u8> {
        u16::wire(v.id) + u8::wire(v.slot) + String::wire(v.username) + Vec::<char>::wire(v.tiles)
            + u8::wire(v.score)
    }

    open spec fn refusal(v: PlayerStateView) -> Option<EncodeError> {
        if String::refusal(v.username) is Some {
            String::refusal(v.username)
        } else {
            Vec::<char>::refusal(v.tiles)
        }
    }

    proof fn lemma_wire_len(v: PlayerStateView) {
    }

    fn length(self) -> (n: usize) {
        self.id.length() + self.slot.length() + self.username.length() + self.tiles.length()
            + self.score.length()
    }

    fn encode(self, writer: &mut Vec<u8>) -> (r: Result<usize, EncodeError>) {
        if self.username.as_str().as_bytes().len() > MAX_PREFIXED || self.tiles.len()
            > MAX_PREFIXED {
            return Err(EncodeError::TooLong);
        }
        let id = self.id.encode(writer)?;
        let slot = self.slot.encode(writer)?;
        let username = self.username.encode(writer)?;
        let tiles = self.tiles.encode(writer)?;
        let score = self.score.encode(writer)?;
        assert(writer@ =~= old(writer)@ + Self::wire(self@));
        Ok(id + slot + username + tiles + score)
    }
}

/// Whether a player state is written without loss: each tile of the rack
/// fits one byte.
pub open spec fn player_state_fits(v: PlayerStateView) -> bool {
    chars_fit(v.tiles)
}

/// Where each of five parts begins in their concatenation.
proof fn lemma_five_parts(
    a: Seq<u8>,
    b: Seq<u8>,
    c: Seq<u8>,
    d: Seq<u8>,
    e: Seq<u8>,
    tail: Seq<u8>,
)
    ensures
        ({
            let all = a + b + c + d + e + tail;
            &&& all == a + (b + (c + (d + (e + tail))))
            &&& all.skip(a.len() as int) == b + (c + (d + (e + tail)))
            &&& all.skip((a.len() + b.len()) as int) == c + (d + (e + tail))
            &&& all.skip((a.len() + b.len() + c.len()) as int) == d + (e + tail)
            &&& all.skip((a.len() + b.len() + c.len() + d.len()) as int) == e + tail
        }),
{
    let all = a + b + c + d + e + tail;
    assert(all =~= a + (b + (c + (d + (e + tail)))));
    assert(all.skip(a.len() as int) =~= b + (c + (d + (e + tail))));
    assert(all.skip((a.len() + b.len()) as int) =~= c + (d + (e + tail)));
    assert(all.skip((a.len() + b.len() + c.len()) as int) =~= d + (e + tail));
    assert(all.skip((a.len() + b.len() + c.len() + d.len()) as int) =~= e + tail);
}

/// A player state that can be written, with tiles that fit one byte each, is
/// read back as written, whatever follows it.
pub proof fn lemma_player_state_round_trip(v: PlayerStateView, tail: Seq<u8>)
    requires
        PlayerState::refusal(v) is None,
        player_state_fits(v),
    ensures
        PlayerState::parse(PlayerState::wire(v) + tail) == Ok::<
            (PlayerStateView, nat),
            DecodeError,
        >((v, PlayerState::wire(v).len())),
{
    let id = u16::wire(v.id);
    let slot = u8::wire(v.slot);
    let username = String::wire(v.username);
    let tiles = Vec::<char>::wire(v.tiles);
    let score = u8::wire(v.score);
    let bytes = PlayerState::wire(v) + tail;
    lemma_five_parts(id, slot, username, tiles, score, tail);
    assert(u16::parse(bytes) == Ok::<(u16, nat), DecodeError>((v.id, 2))) by {
        lemma_u16_round_trip(v.id, slot + (username + (tiles + (score + tail))));
    }
    assert(u8::parse(bytes.skip(2)) == Ok::<(u8, nat), DecodeError>((v.slot, 1))) by {
        lemma_u8_round_trip(v.slot, username + (tiles + (score + tail)));
    }
    assert(String::parse(bytes.skip(3)) == Ok::<(Seq<char>, nat), DecodeError>(
        (v.username, username.len()),
    )) by {
        lemma_string_round_trip(v.username, tiles + (score + tail));
    }
    assert(Vec::<char>::parse(bytes.skip((3 + username.len()) as int)) == Ok::<
        (Seq<char>, nat),
        DecodeError,
    >((v.tiles, tiles.len()))) by {
        lemma_chars_round_trip(v.tiles, score + tail);
    }
    assert(u8::parse(bytes.skip((3 + username.len() + tiles.len()) as int)) == Ok::<
        (u8, nat),
        DecodeError,
    >((v.score, 1))) by {
        lemma_u8_round_trip(v.score, tail);
    }
    let parsed = PlayerState::parse(bytes);
    assert(parsed is Ok);
    assert(parsed->Ok_0.0 == v);
    assert(parsed->Ok_0.1 == PlayerState::wire(v).len());
}

} // verus!
