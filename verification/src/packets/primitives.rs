//! How integers, characters, strings and character sequences are written.

use crate::byte_order::{
    be_bytes_u16, be_bytes_u32, be_bytes_u64, be_value_u16, be_value_u32, be_value_u64, read_u16,
    read_u32, read_u64, write_u16, write_u32, write_u64,
};
use crate::cursor::ByteCursor;
use crate::packets::{DecodeError, EncodeError, PacketFrom, PacketTo};
use vstd::prelude::*;
use vstd::slice::slice_to_vec;
use vstd::utf8::{decode_utf8, encode_utf8, valid_utf8};

verus! {

/// The largest length a 16-bit prefix can declare.
pub const MAX_PREFIXED: usize = 0xFFFF;

/// The one byte a character is written as: the low eight bits of its code
/// point.
pub open spec fn char_byte(c: char) -> u8 {
    (c as u32 % 0x100) as u8
}

/// The character a byte is read as: the one whose code point is the byte.
pub open spec fn byte_char(b: u8) -> char {
    b as char
}

/// A string on the wire: the number of its UTF-8 bytes, then those bytes.
pub open spec fn string_wire(s: Seq<char>) -> Seq<u8> {
    be_bytes_u16(encode_utf8(s).len() as u16) + encode_utf8(s)
}

/// A character sequence on the wire: the number of its characters, then one
/// byte for each.
pub open spec fn chars_wire(s: Seq<char>) -> Seq<u8> {
    be_bytes_u16(s.len() as u16) + Seq::new(s.len(), |i: int| char_byte(s[i]))
}

/// Appends `bytes` to `writer`.
pub(crate) fn append(writer: &mut Vec<u8>, bytes: &[u8])
    ensures
        final(writer)@ == old(writer)@ + bytes@,
{
    let mut i: usize = 0;
    while i < bytes.len()
        invariant
            i <= bytes@.len(),
            writer@ == old(writer)@ + bytes@.take(i as int),
        decreases bytes@.len() - i,
    {
        writer.push(bytes[i]);
        assert(bytes@.take(i + 1) =~= bytes@.take(i as int).push(bytes@[i as int]));
        i = i + 1;
    }
    assert(bytes@.take(i as int) =~= bytes@);
}

/// `String::from_utf8`: the string whose UTF-8 bytes are `bytes`, or nothing
/// where `bytes` is not UTF-8.
#[verifier::external_body]
fn string_from_utf8(bytes: Vec<u8>) -> (r: Option<String>)
    ensures
        match r {
            Some(s) => valid_utf8(bytes@) && encode_utf8(s@) == bytes@,
            None => !valid_utf8(bytes@),
        },
{
    String::from_utf8(bytes).ok()
}

impl PacketFrom for u8 {
    open spec fn parse(bytes: Seq<u8>) -> Result<(u8, nat), DecodeError> {
        if bytes.len() < 1 {
            Err(DecodeError::Truncated)
        } else {
            Ok((bytes[0], 1))
        }
    }

    proof fn lemma_parse_within(bytes: Seq<u8>) {
    }

    fn decode(input: &mut ByteCursor) -> (r: Result<Self, DecodeError>) {
        let ghost rest = input.rest();
        // Names this impl's `parse`, which the solver does not unfold by
        // itself here.
        assert(Self::parse(rest) == if rest.len() < 1 {
            Err::<(u8, nat), DecodeError>(DecodeError::Truncated)
        } else {
            Ok::<(u8, nat), DecodeError>((rest[0], 1))
        });
        match input.take(1) {
            Some(s) => Ok(s[0]),
            None => Err(DecodeError::Truncated),
        }
    }
}

impl PacketTo for u8 {
    open spec fn wire_len(v: u8) -> nat {
        1
    }

    open spec fn wire(v: u8) -> Seq<u8> {
        seq![v]
    }

    open spec fn refusal(v: u8) -> Option<EncodeError> {
        None
    }

    proof fn lemma_wire_len(v: u8) {
    }

    fn length(self) -> (n: usize) {
        1
    }

    fn encode(self, writer: &mut Vec<u8>) -> (r: Result<usize, EncodeError>) {
        writer.push(self);
        // Names this impl's `refusal` and `wire`, which the solver does not
        // unfold by itself here.
        assert(Self::refusal(self@) is None);
        assert(Self::wire(self@) == seq![self]);
        assert(writer@ =~= old(writer)@ + seq![self]);
        Ok(1)
    }
}

impl PacketFrom for u16 {
    open spec fn parse(bytes: Seq<u8>) -> Result<(u16, nat), DecodeError> {
        if bytes.len() < 2 {
            Err(DecodeError::Truncated)
        } else {
            Ok((be_value_u16(bytes.take(2)), 2))
        }
    }

    proof fn lemma_parse_within(bytes: Seq<u8>) {
    }

    fn decode(input: &mut ByteCursor) -> (r: Result<Self, DecodeError>) {
        match input.take(2) {
            Some(s) => {
                assert(s@.take(2) =~= old(input).rest().take(2));
                Ok(read_u16(s))
            },
            None => Err(DecodeError::Truncated),
        }
    }
}

impl PacketTo for u16 {
    open spec fn wire_len(v: u16) -> nat {
        2
    }

    open spec fn wire(v: u16) -> Seq<u8> {
        be_bytes_u16(v)
    }

    open spec fn refusal(v: u16) -> Option<EncodeError> {
        None
    }

    proof fn lemma_wire_len(v: u16) {
    }

    fn length(self) -> (n: usize) {
        2
    }

    fn encode(self, writer: &mut Vec<u8>) -> (r: Result<usize, EncodeError>) {
        let bytes = write_u16(self);
        append(writer, bytes.as_slice());
        Ok(2)
    }
}

impl PacketFrom for u32 {
    open spec fn parse(bytes: Seq<u8>) -> Result<(u32, nat), DecodeError> {
        if bytes.len() < 4 {
            Err(DecodeError::Truncated)
        } else {
            Ok((be_value_u32(bytes.take(4)), 4))
        }
    }

    proof fn lemma_parse_within(bytes: Seq<u8>) {
    }

    fn decode(input: &mut ByteCursor) -> (r: Result<Self, DecodeError>) {
        match input.take(4) {
            Some(s) => {
                assert(s@.take(4) =~= old(input).rest().take(4));
                Ok(read_u32(s))
            },
            None => Err(DecodeError::Truncated),
        }
    }
}

impl PacketTo for u32 {
    open spec fn wire_len(v: u32) -> nat {
        4
    }

    open spec fn wire(v: u32) -> Seq<u8> {
        be_bytes_u32(v)
    }

    open spec fn refusal(v: u32) -> Option<EncodeError> {
        None
    }

    proof fn lemma_wire_len(v: u32) {
    }

    fn length(self) -> (n: usize) {
        4
    }

    fn encode(self, writer: &mut Vec<u8>) -> (r: Result<usize, EncodeError>) {
        let bytes = write_u32(self);
        append(writer, bytes.as_slice());
        Ok(4)
    }
}

impl PacketFrom for u64 {
    open spec fn parse(bytes: Seq<u8>) -> Result<(u64, nat), DecodeError> {
        if bytes.len() < 8 {
            Err(DecodeError::Truncated)
        } else {
            Ok((be_value_u64(bytes.take(8)), 8))
        }
    }

    proof fn lemma_parse_within(bytes: Seq<u8>) {
    }

    fn decode(input: &mut ByteCursor) -> (r: Result<Self, DecodeError>) {
        match input.take(8) {
            Some(s) => {
                assert(s@.take(8) =~= old(input).rest().take(8));
                Ok(read_u64(s))
            },
            None => Err(DecodeError::Truncated),
        }
    }
}

impl PacketTo for u64 {
    open spec fn wire_len(v: u64) -> nat {
        8
    }

    open spec fn wire(v: u64) -> Seq<u8> {
        be_bytes_u64(v)
    }

    open spec fn refusal(v: u64) -> Option<EncodeError> {
        None
    }

    proof fn lemma_wire_len(v: u64) {
    }

    fn length(self) -> (n: usize) {
        8
    }

    fn encode(self, writer: &mut Vec<u8>) -> (r: Result<usize, EncodeError>) {
        let bytes = write_u64(self);
        append(writer, bytes.as_slice());
        Ok(8)
    }
}

impl PacketFrom for char {
    open spec fn parse(bytes: Seq<u8>) -> Result<(char, nat), DecodeError> {
        if bytes.len() < 1 {
            Err(DecodeError::Truncated)
        } else {
            Ok((byte_char(bytes[0]), 1))
        }
    }

    proof fn lemma_parse_within(bytes: Seq<u8>) {
    }

    fn decode(input: &mut ByteCursor) -> (r: Result<Self, DecodeError>) {
        match input.take(1) {
            Some(s) => Ok(s[0] as char),
            None => Err(DecodeError::Truncated),
        }
    }
}

impl PacketTo for char {
    open spec fn wire_len(v: char) -> nat {
        1
    }

    open spec fn wire(v: char) -> Seq<u8> {
        seq![char_byte(v)]
    }

    open spec fn refusal(v: char) -> Option<EncodeError> {
        None
    }

    proof fn lemma_wire_len(v: char) {
    }

    fn length(self) -> (n: usize) {
        1
    }

    fn encode(self, writer: &mut Vec<u8>) -> (r: Result<usize, EncodeError>) {
        let code: u32 = self as u32;
        let low: u8 = (code % 0x100) as u8;
        writer.push(low);
        assert(writer@ =~= old(writer)@ + seq![char_byte(self)]);
        Ok(1)
    }
}

/// What the start of `bytes` reads as, as a string: a 16-bit count of bytes,
/// then that many bytes of UTF-8.
#[verifier::opaque]
pub open spec fn parse_string(bytes: Seq<u8>) -> Result<(Seq<char>, nat), DecodeError> {
    if bytes.len() < 2 {
        Err(DecodeError::Truncated)
    } else {
        let n = be_value_u16(bytes.take(2)) as nat;
        let body = bytes.subrange(2, 2 + n as int);
        if bytes.len() < 2 + n {
            Err(DecodeError::Truncated)
        } else if !valid_utf8(body) {
            Err(DecodeError::InvalidUtf8)
        } else {
            Ok((decode_utf8(body), 2 + n))
        }
    }
}

/// What the start of `bytes` reads as, as a character sequence: a 16-bit
/// count of characters, then one byte for each.
#[verifier::opaque]
pub open spec fn parse_chars(bytes: Seq<u8>) -> Result<(Seq<char>, nat), DecodeError> {
    if bytes.len() < 2 {
        Err(DecodeError::Truncated)
    } else {
        let n = be_value_u16(bytes.take(2)) as nat;
        if bytes.len() < 2 + n {
            Err(DecodeError::Truncated)
        } else {
            Ok((Seq::new(n, |i: int| byte_char(bytes[2 + i])), 2 + n))
        }
    }
}

impl PacketFrom for String {
    open spec fn parse(bytes: Seq<u8>) -> Result<(Seq<char>, nat), DecodeError> {
        parse_string(bytes)
    }

    proof fn lemma_parse_within(bytes: Seq<u8>) {
        reveal(parse_string);
    }

    fn decode(input: &mut ByteCursor) -> (r: Result<Self, DecodeError>) {
        proof {
            reveal(parse_string);
        }
        let start = input.position();
        let n = match input.take(2) {
            Some(s) => {
                assert(s@.take(2) =~= old(input).rest().take(2));
                read_u16(s)
            },
            None => {
                return Err(DecodeError::Truncated);
            },
        };
        let body = match input.take(n as usize) {
            Some(s) => s,
            None => {
                input.rewind(start);
                return Err(DecodeError::Truncated);
            },
        };
        assert(body@ =~= old(input).rest().subrange(2, 2 + n));
        match string_from_utf8(slice_to_vec(body)) {
            Some(s) => {
                proof {
                    vstd::utf8::encode_utf8_decode_utf8(s@);
                }
                Ok(s)
            },
            None => {
                input.rewind(start);
                Err(DecodeError::InvalidUtf8)
            },
        }
    }
}

impl PacketTo for String {
    open spec fn wire_len(v: Seq<char>) -> nat {
        2 + encode_utf8(v).len()
    }

    open spec fn wire(v: Seq<char>) -> Seq<u8> {
        string_wire(v)
    }

    open spec fn refusal(v: Seq<char>) -> Option<EncodeError> {
        if encode_utf8(v).len() > MAX_PREFIXED {
            Some(EncodeError::TooLong)
        } else {
            None
        }
    }

    proof fn lemma_wire_len(v: Seq<char>) {
    }

    fn length(self) -> (n: usize) {
        let bytes = self.as_str().as_bytes();
        2 + bytes.len()
    }

    fn encode(self, writer: &mut Vec<u8>) -> (r: Result<usize, EncodeError>) {
        let bytes = self.as_str().as_bytes();
        let n = bytes.len();
        if n > MAX_PREFIXED {
            return Err(EncodeError::TooLong);
        }
        let prefix = write_u16(n as u16);
        append(writer, prefix.as_slice());
        append(writer, bytes);
        assert(writer@ =~= old(writer)@ + string_wire(self@));
        Ok(2 + n)
    }
}

impl PacketFrom for Vec<char> {
    open spec fn parse(bytes: Seq<u8>) -> Result<(Seq<char>, nat), DecodeError> {
        parse_chars(bytes)
    }

    proof fn lemma_parse_within(bytes: Seq<u8>) {
        reveal(parse_chars);
    }

    fn decode(input: &mut ByteCursor) -> (r: Result<Self, DecodeError>) {
        proof {
            reveal(parse_chars);
        }
        let start = input.position();
        let n = match input.take(2) {
            Some(s) => {
                assert(s@.take(2) =~= old(input).rest().take(2));
                read_u16(s)
            },
            None => {
                return Err(DecodeError::Truncated);
            },
        };
        let body = match input.take(n as usize) {
            Some(s) => s,
            None => {
                input.rewind(start);
                return Err(DecodeError::Truncated);
            },
        };
        let ghost rest = old(input).rest();
        assert(body@ =~= rest.subrange(2, 2 + n));
        let mut content: Vec<char> = Vec::with_capacity(body.len());
        let mut i: usize = 0;
        while i < body.len()
            invariant
                i <= body@.len(),
                body@.len() == n,
                body@ == rest.subrange(2, 2 + n),
                2 + n <= rest.len(),
                content@ == Seq::new(i as nat, |k: int| byte_char(rest[2 + k])),
            decreases body@.len() - i,
        {
            content.push(body[i] as char);
            assert(content@ =~= Seq::new((i + 1) as nat, |k: int| byte_char(rest[2 + k])));
            i = i + 1;
        }
        Ok(content)
    }
}

impl PacketTo for Vec<char> {
    open spec fn wire_len(v: Seq<char>) -> nat {
        2 + v.len()
    }

    open spec fn wire(v: Seq<char>) -> Seq<u8> {
        chars_wire(v)
    }

    open spec fn refusal(v: Seq<char>) -> Option<EncodeError> {
        if v.len() > MAX_PREFIXED {
            Some(EncodeError::TooLong)
        } else {
            None
        }
    }

    proof fn lemma_wire_len(v: Seq<char>) {
    }

    fn length(self) -> (n: usize) {
        2 + self.len()
    }

    fn encode(self, writer: &mut Vec<u8>) -> (r: Result<usize, EncodeError>) {
        let n = self.len();
        if n > MAX_PREFIXED {
            return Err(EncodeError::TooLong);
        }
        let prefix = write_u16(n as u16);
        append(writer, prefix.as_slice());
        let ghost body = Seq::new(self@.len(), |k: int| char_byte(self@[k]));
        let mut i: usize = 0;
        while i < n
            invariant
                i <= n,
                n == self@.len(),
                body == Seq::new(self@.len(), |k: int| char_byte(self@[k])),
                writer@ == old(writer)@ + be_bytes_u16(n as u16) + body.take(i as int),
            decreases n - i,
        {
            let code: u32 = self[i] as u32;
            writer.push((code % 0x100) as u8);
            assert(body.take(i + 1) =~= body.take(i as int).push(char_byte(self@[i as int])));
            i = i + 1;
        }
        assert(body.take(n as int) =~= body);
        assert(writer@ =~= old(writer)@ + chars_wire(self@));
        Ok(2 + n)
    }
}

/// Whether a character is written without loss: its code point fits one byte.
pub open spec fn char_fits(c: char) -> bool {
    c as u32 <= 0xFF
}

/// Whether every character of a sequence is written without loss.
pub open spec fn chars_fit(s: Seq<char>) -> bool {
    forall|i: int| 0 <= i < s.len() ==> char_fits(#[trigger] s[i])
}

/// An 8-bit integer that was written is read back, whatever follows it.
pub proof fn lemma_u8_round_trip(v: u8, tail: Seq<u8>)
    ensures
        <u8 as PacketFrom>::parse(<u8 as PacketTo>::wire(v) + tail) == Ok::<(u8, nat), DecodeError>(
            (v, 1),
        ),
{
}

/// A 16-bit integer that was written is read back, whatever follows it.
pub proof fn lemma_u16_round_trip(v: u16, tail: Seq<u8>)
    ensures
        <u16 as PacketFrom>::parse(<u16 as PacketTo>::wire(v) + tail) == Ok::<
            (u16, nat),
            DecodeError,
        >((v, 2)),
{
    crate::byte_order::lemma_u16_round_trip(v);
    assert((be_bytes_u16(v) + tail).take(2) =~= be_bytes_u16(v));
}

/// A 32-bit integer that was written is read back, whatever follows it.
pub proof fn lemma_u32_round_trip(v: u32, tail: Seq<u8>)
    ensures
        <u32 as PacketFrom>::parse(<u32 as PacketTo>::wire(v) + tail) == Ok::<
            (u32, nat),
            DecodeError,
        >((v, 4)),
{
    crate::byte_order::lemma_u32_round_trip(v);
    assert((be_bytes_u32(v) + tail).take(4) =~= be_bytes_u32(v));
}

/// A 64-bit integer that was written is read back, whatever follows it.
pub proof fn lemma_u64_round_trip(v: u64, tail: Seq<u8>)
    ensures
        <u64 as PacketFrom>::parse(<u64 as PacketTo>::wire(v) + tail) == Ok::<
            (u64, nat),
            DecodeError,
        >((v, 8)),
{
    crate::byte_order::lemma_u64_round_trip(v);
    assert((be_bytes_u64(v) + tail).take(8) =~= be_bytes_u64(v));
}

/// A character whose code point fits one byte is read back as written.
pub proof fn lemma_char_round_trip(c: char, tail: Seq<u8>)
    requires
        char_fits(c),
    ensures
        <char as PacketFrom>::parse(<char as PacketTo>::wire(c) + tail) == Ok::<
            (char, nat),
            DecodeError,
        >((c, 1)),
{
    assert(byte_char(char_byte(c)) == c);
}

/// A string short enough to be written is read back as written.
pub proof fn lemma_string_round_trip(s: Seq<char>, tail: Seq<u8>)
    requires
        <String as PacketTo>::refusal(s) is None,
    ensures
        <String as PacketFrom>::parse(<String as PacketTo>::wire(s) + tail) == Ok::<
            (Seq<char>, nat),
            DecodeError,
        >((s, <String as PacketTo>::wire(s).len())),
{
    reveal(parse_string);
    let body = encode_utf8(s);
    let bytes = string_wire(s) + tail;
    crate::byte_order::lemma_u16_round_trip(body.len() as u16);
    assert(bytes.take(2) =~= be_bytes_u16(body.len() as u16));
    assert(bytes.subrange(2, 2 + body.len() as int) =~= body);
    vstd::utf8::encode_utf8_valid_utf8(s);
    vstd::utf8::encode_utf8_decode_utf8(s);
}

/// A character sequence short enough to be written, and made of characters
/// that fit one byte, is read back as written.
pub proof fn lemma_chars_round_trip(s: Seq<char>, tail: Seq<u8>)
    requires
        <Vec<char> as PacketTo>::refusal(s) is None,
        chars_fit(s),
    ensures
        <Vec<char> as PacketFrom>::parse(<Vec<char> as PacketTo>::wire(s) + tail) == Ok::<
            (Seq<char>, nat),
            DecodeError,
        >((s, <Vec<char> as PacketTo>::wire(s).len())),
{
    reveal(parse_chars);
    let bytes = chars_wire(s) + tail;
    crate::byte_order::lemma_u16_round_trip(s.len() as u16);
    assert(bytes.take(2) =~= be_bytes_u16(s.len() as u16));
    let read = Seq::new(s.len(), |i: int| byte_char(bytes[2 + i]));
    assert forall|i: int| 0 <= i < s.len() implies read[i] == s[i] by {
        lemma_char_round_trip(s[i], tail);
        assert(bytes[2 + i] == char_byte(s[i]));
    }
    assert(read =~= s);
}

/// An empty string is written as its two-byte prefix alone, and those two
/// bytes are read back as the empty string.
pub proof fn lemma_empty_string()
    ensures
        <String as PacketTo>::refusal(Seq::<char>::empty()) is None,
        <String as PacketTo>::wire(Seq::<char>::empty()) == seq![0u8, 0u8],
        <String as PacketFrom>::parse(seq![0u8, 0u8]) == Ok::<(Seq<char>, nat), DecodeError>(
            (Seq::<char>::empty(), 2),
        ),
{
    let empty = Seq::<char>::empty();
    assert(encode_utf8(empty) =~= Seq::<u8>::empty());
    reveal(crate::byte_order::byte_at);
    assert(string_wire(empty) =~= seq![0u8, 0u8]);
    lemma_string_round_trip(empty, Seq::<u8>::empty());
    assert(string_wire(empty) + Seq::<u8>::empty() =~= seq![0u8, 0u8]);
}

/// An empty character sequence is written as its two-byte prefix alone, and
/// those two bytes are read back as the empty sequence.
pub proof fn lemma_empty_chars()
    ensures
        <Vec<char> as PacketTo>::refusal(Seq::<char>::empty()) is None,
        <Vec<char> as PacketTo>::wire(Seq::<char>::empty()) == seq![0u8, 0u8],
        <Vec<char> as PacketFrom>::parse(seq![0u8, 0u8]) == Ok::<(Seq<char>, nat), DecodeError>(
            (Seq::<char>::empty(), 2),
        ),
{
    let empty = Seq::<char>::empty();
    reveal(crate::byte_order::byte_at);
    assert(chars_wire(empty) =~= seq![0u8, 0u8]);
    lemma_chars_round_trip(empty, Seq::<u8>::empty());
    assert(chars_wire(empty) + Seq::<u8>::empty() =~= seq![0u8, 0u8]);
}

} // verus!
