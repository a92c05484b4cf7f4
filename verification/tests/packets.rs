use worders::cursor::ByteCursor;
use worders::packets::{
    Ack, AckState, DecodeError, EncodeError, GameStateUpdate, PacketFrom, PacketTo, Packets, Place,
    PlayerState,
};

fn encoded(packet: Packets) -> Vec<u8> {
    let mut out = Vec::new();
    let written = packet.encode(&mut out).unwrap();
    assert_eq!(written, out.len());
    out
}

fn decoded(bytes: &[u8]) -> Result<Packets, DecodeError> {
    let mut cursor = ByteCursor::new(bytes);
    Packets::decode(&mut cursor)
}

fn sample_player_state() -> PlayerState {
    PlayerState::new(
        0,
        0,
        "SarahGreyWolf".to_string(),
        vec!['S', 'A', 'R', 'A', 'H', ' ', ' '],
        4,
    )
}

#[test]
fn ack_confirm_is_four_bytes() {
    let bytes = encoded(Packets::Ack(Ack::new(7, AckState::Confirm)));
    assert_eq!(bytes, vec![0x00, 0x00, 0x07, 0x01]);
}

#[test]
fn game_state_update_is_read_from_its_bytes() {
    let bytes = [0x03, 0x00, 0x02, 0x00, 0x03, 0x41, 0x42, 0x43];
    let packet = decoded(&bytes).unwrap();
    assert_eq!(packet, Packets::GameStateUpdate(GameStateUpdate::new(2, vec!['A', 'B', 'C'])));
    match packet {
        Packets::GameStateUpdate(update) => {
            assert_eq!(update.id(), 2);
            assert_eq!(update.placed(), &vec!['A', 'B', 'C']);
        }
        other => panic!("read as {:?}", other),
    }
}

#[test]
fn place_is_twelve_bytes() {
    let bytes = encoded(Packets::Place(Place::new(1, 'S', 3, 4)));
    assert_eq!(
        bytes,
        vec![0x02, 0x00, 0x01, 0x53, 0x00, 0x00, 0x00, 0x03, 0x00, 0x00, 0x00, 0x04]
    );
}

#[test]
fn player_state_bytes_follow_the_field_order() {
    let bytes = encoded(Packets::PlayerState(PlayerState::new(
        0x0102,
        3,
        "hi".to_string(),
        vec!['Q', 'Z'],
        9,
    )));
    assert_eq!(
        bytes,
        vec![0x01, 0x01, 0x02, 0x03, 0x00, 0x02, b'h', b'i', 0x00, 0x02, b'Q', b'Z', 0x09]
    );
}

#[test]
fn every_kind_of_packet_is_read_back_as_written() {
    let packets = vec![
        Packets::Ack(Ack::new(65535, AckState::Success)),
        Packets::Ack(Ack::new(1, AckState::Confirm)),
        Packets::Ack(Ack::new(2, AckState::Turn)),
        Packets::Ack(Ack::new(3, AckState::Failure)),
        Packets::PlayerState(sample_player_state()),
        Packets::Place(Place::new(513, 'Z', 0xDEADBEEF, 14)),
        Packets::GameStateUpdate(GameStateUpdate::new(9, vec!['W', 'O', 'R', 'D'])),
    ];
    for packet in packets {
        let bytes = encoded(packet.clone());
        let mut cursor = ByteCursor::new(&bytes);
        assert_eq!(Packets::decode(&mut cursor), Ok(packet));
        assert_eq!(cursor.position(), bytes.len());
        assert_eq!(cursor.remaining(), 0);
    }
}

#[test]
fn a_packet_is_read_back_whatever_follows_it() {
    let packet = Packets::PlayerState(sample_player_state());
    let mut bytes = encoded(packet.clone());
    let own = bytes.len();
    bytes.extend_from_slice(&[0xFF, 0x00, 0x7F]);
    let mut cursor = ByteCursor::new(&bytes);
    assert_eq!(Packets::decode(&mut cursor), Ok(packet));
    assert_eq!(cursor.position(), own);
    assert_eq!(cursor.remaining(), 3);
}

#[test]
fn length_is_the_number_of_bytes_written() {
    let packets = vec![
        Packets::Ack(Ack::new(7, AckState::Confirm)),
        Packets::PlayerState(sample_player_state()),
        Packets::Place(Place::new(1, 'S', 3, 4)),
        Packets::GameStateUpdate(GameStateUpdate::new(2, vec!['A', 'B', 'C'])),
    ];
    let expected = [4usize, 1 + 2 + 1 + (2 + 13) + (2 + 7) + 1, 12, 1 + 2 + 2 + 3];
    for (packet, want) in packets.into_iter().zip(expected) {
        assert_eq!(packet.clone().length(), want);
        assert_eq!(encoded(packet).len(), want);
    }
}

#[test]
fn length_of_primitives_is_fixed_or_prefixed() {
    assert_eq!(7u8.length(), 1);
    assert_eq!(7u16.length(), 2);
    assert_eq!(7u32.length(), 4);
    assert_eq!(7u64.length(), 8);
    assert_eq!('x'.length(), 1);
    assert_eq!("héllo".to_string().length(), 2 + 6);
    assert_eq!(vec!['a', 'b', 'c'].length(), 2 + 3);
    assert_eq!(AckState::Turn.length(), 1);
    assert_eq!(Packets::Unrecognized.length(), 1);
}

#[test]
fn integers_are_written_most_significant_byte_first() {
    let mut out = Vec::new();
    assert_eq!(0xABu8.encode(&mut out), Ok(1));
    assert_eq!(0x0102u16.encode(&mut out), Ok(2));
    assert_eq!(0x03040506u32.encode(&mut out), Ok(4));
    assert_eq!(0x0708090A0B0C0D0Eu64.encode(&mut out), Ok(8));
    assert_eq!(
        out,
        vec![
            0xAB, 0x01, 0x02, 0x03, 0x04, 0x05, 0x06, 0x07, 0x08, 0x09, 0x0A, 0x0B, 0x0C, 0x0D,
            0x0E
        ]
    );
}

#[test]
fn integers_are_read_most_significant_byte_first() {
    let bytes = [
        0xAB, 0x01, 0x02, 0x03, 0x04, 0x05, 0x06, 0x07, 0x08, 0x09, 0x0A, 0x0B, 0x0C, 0x0D, 0x0E,
    ];
    let mut cursor = ByteCursor::new(&bytes);
    assert_eq!(u8::decode(&mut cursor), Ok(0xAB));
    assert_eq!(cursor.position(), 1);
    assert_eq!(u16::decode(&mut cursor), Ok(0x0102));
    assert_eq!(cursor.position(), 3);
    assert_eq!(u32::decode(&mut cursor), Ok(0x03040506));
    assert_eq!(cursor.position(), 7);
    assert_eq!(u64::decode(&mut cursor), Ok(0x0708090A0B0C0D0E));
    assert_eq!(cursor.position(), 15);
    assert_eq!(u8::decode(&mut cursor), Err(DecodeError::Truncated));
    assert_eq!(cursor.position(), 15);
}

#[test]
fn largest_integers_survive() {
    let mut out = Vec::new();
    u16::MAX.encode(&mut out).unwrap();
    u32::MAX.encode(&mut out).unwrap();
    u64::MAX.encode(&mut out).unwrap();
    0x8000_0000_0000_0001u64.encode(&mut out).unwrap();
    let mut cursor = ByteCursor::new(&out);
    assert_eq!(u16::decode(&mut cursor), Ok(u16::MAX));
    assert_eq!(u32::decode(&mut cursor), Ok(u32::MAX));
    assert_eq!(u64::decode(&mut cursor), Ok(u64::MAX));
    assert_eq!(u64::decode(&mut cursor), Ok(0x8000_0000_0000_0001));
}

#[test]
fn a_truncated_integer_leaves_the_cursor_in_place() {
    let bytes = [0x01, 0x02, 0x03];
    let mut cursor = ByteCursor::new(&bytes);
    assert_eq!(u32::decode(&mut cursor), Err(DecodeError::Truncated));
    assert_eq!(u64::decode(&mut cursor), Err(DecodeError::Truncated));
    assert_eq!(cursor.position(), 0);
    assert_eq!(u16::decode(&mut cursor), Ok(0x0102));
    assert_eq!(u16::decode(&mut cursor), Err(DecodeError::Truncated));
    assert_eq!(cursor.position(), 2);
}

#[test]
fn a_character_is_one_byte() {
    let mut out = Vec::new();
    assert_eq!('S'.encode(&mut out), Ok(1));
    assert_eq!('\u{e9}'.encode(&mut out), Ok(1));
    assert_eq!(out, vec![0x53, 0xE9]);
    let mut cursor = ByteCursor::new(&out);
    assert_eq!(char::decode(&mut cursor), Ok('S'));
    assert_eq!(char::decode(&mut cursor), Ok('\u{e9}'));
    assert_eq!(char::decode(&mut cursor), Err(DecodeError::Truncated));
}

#[test]
fn a_wide_character_keeps_its_low_eight_bits() {
    let mut out = Vec::new();
    assert_eq!('\u{20ac}'.encode(&mut out), Ok(1));
    assert_eq!(out, vec![0xAC]);
    let mut cursor = ByteCursor::new(&out);
    assert_eq!(char::decode(&mut cursor), Ok('\u{ac}'));
}

#[test]
fn an_empty_string_is_its_prefix_alone() {
    let mut out = Vec::new();
    assert_eq!(String::new().encode(&mut out), Ok(2));
    assert_eq!(out, vec![0x00, 0x00]);
    let mut cursor = ByteCursor::new(&out);
    assert_eq!(String::decode(&mut cursor), Ok(String::new()));
    assert_eq!(cursor.position(), 2);
}

#[test]
fn an_empty_sequence_is_its_prefix_alone() {
    let mut out = Vec::new();
    assert_eq!(Vec::<char>::new().encode(&mut out), Ok(2));
    assert_eq!(out, vec![0x00, 0x00]);
    let mut cursor = ByteCursor::new(&out);
    assert_eq!(Vec::<char>::decode(&mut cursor), Ok(Vec::new()));
    assert_eq!(cursor.position(), 2);
}

#[test]
fn a_string_is_prefixed_with_its_byte_length() {
    let mut out = Vec::new();
    assert_eq!("h\u{e9}".to_string().encode(&mut out), Ok(5));
    assert_eq!(out, vec![0x00, 0x03, b'h', 0xC3, 0xA9]);
    let mut cursor = ByteCursor::new(&out);
    assert_eq!(String::decode(&mut cursor), Ok("h\u{e9}".to_string()));
    assert_eq!(cursor.position(), 5);
}

#[test]
fn a_string_that_is_not_utf8_is_refused() {
    let bytes = [0x00, 0x02, 0xC3, 0x28, 0x07];
    let mut cursor = ByteCursor::new(&bytes);
    assert_eq!(String::decode(&mut cursor), Err(DecodeError::InvalidUtf8));
    assert_eq!(cursor.position(), 0);
}

#[test]
fn a_short_string_is_truncated_input() {
    let bytes = [0x00, 0x05, b'a', b'b'];
    let mut cursor = ByteCursor::new(&bytes);
    assert_eq!(String::decode(&mut cursor), Err(DecodeError::Truncated));
    assert_eq!(cursor.position(), 0);
    let mut cursor = ByteCursor::new(&bytes[..1]);
    assert_eq!(String::decode(&mut cursor), Err(DecodeError::Truncated));
}

#[test]
fn a_short_sequence_is_truncated_input() {
    let bytes = [0x00, 0x03, b'a', b'b'];
    let mut cursor = ByteCursor::new(&bytes);
    assert_eq!(Vec::<char>::decode(&mut cursor), Err(DecodeError::Truncated));
    assert_eq!(cursor.position(), 0);
}

#[test]
fn the_longest_string_fits_and_one_more_byte_does_not() {
    let longest = "a".repeat(65535);
    let mut out = Vec::new();
    assert_eq!(longest.clone().encode(&mut out), Ok(65537));
    assert_eq!(&out[..2], &[0xFF, 0xFF]);
    let mut cursor = ByteCursor::new(&out);
    assert_eq!(String::decode(&mut cursor), Ok(longest));

    let mut out = vec![0x11];
    assert_eq!("a".repeat(65536).encode(&mut out), Err(EncodeError::TooLong));
    assert_eq!(out, vec![0x11]);
}

#[test]
fn the_longest_sequence_fits_and_one_more_tile_does_not() {
    let longest = vec!['T'; 65535];
    let mut out = Vec::new();
    assert_eq!(longest.clone().encode(&mut out), Ok(65537));
    let mut cursor = ByteCursor::new(&out);
    assert_eq!(Vec::<char>::decode(&mut cursor), Ok(longest));

    let mut out = vec![0x11];
    assert_eq!(vec!['T'; 65536].encode(&mut out), Err(EncodeError::TooLong));
    assert_eq!(out, vec![0x11]);
}

#[test]
fn a_record_that_is_too_long_writes_nothing() {
    let mut out = vec![0x22];
    let state = PlayerState::new(1, 1, "ok".to_string(), vec!['T'; 65536], 0);
    assert_eq!(Packets::PlayerState(state).encode(&mut out), Err(EncodeError::TooLong));
    let state = PlayerState::new(1, 1, "a".repeat(65536), vec![], 0);
    assert_eq!(state.encode(&mut out), Err(EncodeError::TooLong));
    let update = GameStateUpdate::new(1, vec!['T'; 65536]);
    assert_eq!(Packets::GameStateUpdate(update).encode(&mut out), Err(EncodeError::TooLong));
    assert_eq!(out, vec![0x22]);
}

#[test]
fn the_unrecognized_packet_cannot_be_written() {
    let mut out = vec![0x33];
    assert_eq!(Packets::Unrecognized.encode(&mut out), Err(EncodeError::Unrecognized));
    assert_eq!(out, vec![0x33]);
}

#[test]
fn an_unknown_discriminant_takes_one_byte() {
    for tag in [4u8, 5, 42, 0x80, 0xFF] {
        let bytes = [tag, 0x00, 0x01, 0x02];
        let mut cursor = ByteCursor::new(&bytes);
        assert_eq!(Packets::decode(&mut cursor), Ok(Packets::Unrecognized));
        assert_eq!(cursor.position(), 1);
        assert_eq!(cursor.remaining(), 3);
    }
    let mut cursor = ByteCursor::new(&[0x09]);
    assert_eq!(Packets::decode(&mut cursor), Ok(Packets::Unrecognized));
    assert_eq!(cursor.position(), 1);
}

#[test]
fn the_discriminant_picks_the_record() {
    assert_eq!(
        decoded(&[0, 0x00, 0x07, 0x01]),
        Ok(Packets::Ack(Ack::new(7, AckState::Confirm)))
    );
    assert_eq!(
        decoded(&[1, 0x00, 0x07, 0x02, 0x00, 0x01, b'x', 0x00, 0x01, b'Y', 0x05]),
        Ok(Packets::PlayerState(PlayerState::new(7, 2, "x".to_string(), vec!['Y'], 5)))
    );
    assert_eq!(
        decoded(&[2, 0x00, 0x01, 0x53, 0, 0, 0, 3, 0, 0, 0, 4]),
        Ok(Packets::Place(Place::new(1, 'S', 3, 4)))
    );
    assert_eq!(
        decoded(&[3, 0x00, 0x02, 0x00, 0x00]),
        Ok(Packets::GameStateUpdate(GameStateUpdate::new(2, vec![])))
    );
}

#[test]
fn a_malformed_payload_fails_in_its_own_record() {
    // The same three payload bytes are a whole acknowledgement, and too few
    // for each of the other records.
    let payload = [0x00, 0x07, 0x01];
    let mut frame = vec![0u8];
    frame.extend_from_slice(&payload);
    assert!(matches!(decoded(&frame), Ok(Packets::Ack(_))));
    for tag in [1u8, 2, 3] {
        frame[0] = tag;
        let mut cursor = ByteCursor::new(&frame);
        assert_eq!(Packets::decode(&mut cursor), Err(DecodeError::Truncated));
        assert_eq!(cursor.position(), 0);
    }
    // A player state whose name is not UTF-8 fails as a player state does.
    let bad_name = [1, 0x00, 0x07, 0x02, 0x00, 0x01, 0xFF, 0x00, 0x00, 0x05];
    assert_eq!(decoded(&bad_name), Err(DecodeError::InvalidUtf8));
}

#[test]
fn an_empty_frame_is_truncated_input() {
    assert_eq!(decoded(&[]), Err(DecodeError::Truncated));
    for tag in [0u8, 1, 2, 3] {
        assert_eq!(decoded(&[tag]), Err(DecodeError::Truncated));
    }
}

#[test]
fn an_unknown_acknowledgement_state_reads_as_failure() {
    for byte in [3u8, 4, 100, 255] {
        assert_eq!(
            decoded(&[0, 0x00, 0x01, byte]),
            Ok(Packets::Ack(Ack::new(1, AckState::Failure)))
        );
    }
    let mut out = Vec::new();
    for state in [AckState::Success, AckState::Confirm, AckState::Turn, AckState::Failure] {
        state.encode(&mut out).unwrap();
    }
    assert_eq!(out, vec![0, 1, 2, 3]);
    let mut cursor = ByteCursor::new(&out);
    assert_eq!(AckState::decode(&mut cursor), Ok(AckState::Success));
    assert_eq!(AckState::decode(&mut cursor), Ok(AckState::Confirm));
    assert_eq!(AckState::decode(&mut cursor), Ok(AckState::Turn));
    assert_eq!(AckState::decode(&mut cursor), Ok(AckState::Failure));
    assert_eq!(AckState::decode(&mut cursor), Err(DecodeError::Truncated));
}

#[test]
fn records_are_read_without_an_envelope() {
    let bytes = [0x00, 0x01, 0x53, 0, 0, 0, 3, 0, 0, 0, 4, 0x99];
    let mut cursor = ByteCursor::new(&bytes);
    let place = Place::decode(&mut cursor).unwrap();
    assert_eq!((place.id(), place.tile(), place.x(), place.y()), (1, 'S', 3, 4));
    assert_eq!(cursor.position(), 11);

    let mut out = Vec::new();
    assert_eq!(sample_player_state().encode(&mut out), Ok(28));
    let mut cursor = ByteCursor::new(&out);
    let state = PlayerState::decode(&mut cursor).unwrap();
    assert_eq!(state.id(), 0);
    assert_eq!(state.slot(), 0);
    assert_eq!(state.username(), "SarahGreyWolf");
    assert_eq!(state.tiles(), &vec!['S', 'A', 'R', 'A', 'H', ' ', ' ']);
    assert_eq!(state.score(), 4);

    let mut out = Vec::new();
    assert_eq!(Ack::new(7, AckState::Turn).encode(&mut out), Ok(3));
    let mut cursor = ByteCursor::new(&out);
    let ack = Ack::decode(&mut cursor).unwrap();
    assert_eq!((ack.id(), ack.state()), (7, AckState::Turn));
}

#[test]
fn encoding_appends_to_what_the_writer_holds() {
    let mut out = vec![0xEE];
    assert_eq!(Packets::Ack(Ack::new(7, AckState::Confirm)).encode(&mut out), Ok(4));
    assert_eq!(Packets::Place(Place::new(1, 'S', 3, 4)).encode(&mut out), Ok(12));
    assert_eq!(out.len(), 17);
    assert_eq!(&out[..5], &[0xEE, 0x00, 0x00, 0x07, 0x01]);
    let mut cursor = ByteCursor::new(&out[1..]);
    assert_eq!(Packets::decode(&mut cursor), Ok(Packets::Ack(Ack::new(7, AckState::Confirm))));
    assert_eq!(Packets::decode(&mut cursor), Ok(Packets::Place(Place::new(1, 'S', 3, 4))));
    assert_eq!(cursor.remaining(), 0);
}

#[test]
fn the_cursor_takes_rewinds_and_counts() {
    let bytes = [1u8, 2, 3, 4, 5];
    let mut cursor = ByteCursor::new(&bytes);
    assert_eq!(cursor.position(), 0);
    assert_eq!(cursor.remaining(), 5);
    assert_eq!(cursor.take(2), Some(&bytes[..2]));
    assert_eq!(cursor.take(0), Some(&bytes[2..2]));
    assert_eq!(cursor.take(4), None);
    assert_eq!(cursor.position(), 2);
    assert_eq!(cursor.take(3), Some(&bytes[2..]));
    assert_eq!(cursor.remaining(), 0);
    assert_eq!(cursor.take(usize::MAX), None);
    cursor.rewind(1);
    assert_eq!(cursor.position(), 1);
    assert_eq!(cursor.take(1), Some(&bytes[1..2]));
    cursor.rewind(4);
    assert_eq!(cursor.position(), 2);
    cursor.rewind(0);
    assert_eq!(cursor.remaining(), 5);
}
