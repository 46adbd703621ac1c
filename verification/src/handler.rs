//! The request handler: decodes a request body, applies writes to the device
//! store and builds the logical payload of the reply.

use crate::device_map::{
    lemma_read_after_write, read_words, write_words, Areas, DeviceKey, DeviceMap, Word,
};
use crate::frame::{le16, McRequest};
use crate::params::{
    elements_view, fields_view, members_view, Element, ElementView, Field, Member, Param,
    ParamView, Params, ParamsView, Scalar, ScalarView,
};
use crate::registry::{lookup_command, Command, CommandDescriptor, CommandView};
use crate::params::{is_first_named, named, top_array};
use crate::response::{
    block_value, block_words, blocks_output, build_response, entry_output, response_of,
    response_upto, template_fields, Role,
};
use crate::registry::EntryView;
use vstd::prelude::*;
use vstd::slice::slice_subrange;
use vstd::string::*;

verus! {

/// Why a request was refused.
#[derive(Debug, Clone, Copy, PartialEq, Eq, Structural)]
pub enum HandlerError {
    /// The body has fewer than the four bytes of command and subcommand.
    RequestTooShort,
    /// An echo payload of less than 1 or more than 960 bytes.
    EchoLengthRange,
    /// An echo payload with a byte that is no ASCII hex digit.
    EchoBadChar,
    /// A word write that declares more words than the body holds.
    WriteTooShort,
    /// A write whose range ends beyond what this machine can address.
    AddressRange,
    /// A text to be rendered as ASCII hex holds another character.
    AsciiHexBadChar,
}

impl HandlerError {
    /// The name of the error.
    pub open spec fn spec_kind(self) -> Seq<char> {
        match self {
            HandlerError::RequestTooShort => "request_too_short"@,
            HandlerError::EchoLengthRange => "echo_length_range"@,
            HandlerError::EchoBadChar => "echo_bad_char"@,
            HandlerError::WriteTooShort => "write_too_short"@,
            HandlerError::AddressRange => "address_range"@,
            HandlerError::AsciiHexBadChar => "ascii_hex_bad_char"@,
        }
    }

    /// The name of the error, for a log.
    pub fn kind(&self) -> (name: &'static str)
        ensures
            name@ == self.spec_kind(),
    {
        match self {
            HandlerError::RequestTooShort => "request_too_short",
            HandlerError::EchoLengthRange => "echo_length_range",
            HandlerError::EchoBadChar => "echo_bad_char",
            HandlerError::WriteTooShort => "write_too_short",
            HandlerError::AddressRange => "address_range",
            HandlerError::AsciiHexBadChar => "ascii_hex_bad_char",
        }
    }
}

/// Command code of the batch read.
pub const COMMAND_READ: u16 = 0x0401;

/// Command code of the batch write.
pub const COMMAND_WRITE: u16 = 0x1401;

/// Command code of the random write.
pub const COMMAND_WRITE_RANDOM: u16 = 0x1403;

/// Command code of the echo test.
pub const COMMAND_ECHO: u16 = 0x0619;

/// The longest echo payload.
pub const ECHO_MAX_LEN: usize = 960;

/// Where a read or write starts, on which device, over how many points, and
/// where in the body its data begins.
#[derive(Debug, Clone, Copy, PartialEq, Eq, Structural)]
pub struct BlockHeader {
    pub start: u32,
    pub device_code: u16,
    pub count: u16,
    pub data_offset: usize,
}

/// The command code of a body of at least four bytes.
pub open spec fn command_of(data: Seq<u8>) -> u16 {
    le16(data[0], data[1])
}

/// The subcommand of a body of at least four bytes.
pub open spec fn subcommand_of(data: Seq<u8>) -> u16 {
    le16(data[2], data[3])
}

/// Whether command and subcommand announce nibble-packed bits to write.
pub open spec fn is_bit_write(command: u16, sub: u16) -> bool {
    (command == COMMAND_WRITE || command == COMMAND_WRITE_RANDOM) && (sub == 0x0001 || sub
        == 0x0003)
}

/// The number of data bytes that `count` points take: two points to a byte
/// for a bit write, two bytes to a point otherwise.
pub open spec fn expected_payload(command: u16, sub: u16, count: u16) -> nat {
    if is_bit_write(command, sub) {
        ((count + 1) / 2) as nat
    } else {
        (count * 2) as nat
    }
}

/// The header in the Q-series layout: three bytes of start address, one byte
/// of device code, two bytes of count; data from offset 10.
pub open spec fn q_header(data: Seq<u8>) -> BlockHeader {
    BlockHeader {
        start: (data[4] + 256 * data[5] + 65536 * data[6]) as u32,
        device_code: data[7] as u16,
        count: le16(data[8], data[9]),
        data_offset: 10,
    }
}

/// The header in the R-series layout: four bytes of start address, two bytes
/// of device code, two bytes of count; data from offset 12.
pub open spec fn r_header(data: Seq<u8>) -> BlockHeader {
    BlockHeader {
        start: (data[4] + 256 * data[5] + 65536 * data[6] + 16777216 * data[7]) as u32,
        device_code: le16(data[8], data[9]),
        count: le16(data[10], data[11]),
        data_offset: 12,
    }
}

/// Whether the data bytes of `header` fill the rest of the body exactly.
pub open spec fn fits(data: Seq<u8>, header: BlockHeader) -> bool {
    data.len() == header.data_offset + expected_payload(
        command_of(data),
        subcommand_of(data),
        header.count,
    )
}

/// The header of a read or write body. Both layouts are read where the body
/// is long enough for them; the Q-series layout is taken where its data fits
/// the rest of the body and that of the R-series layout does not, or where
/// the body is too short for an R-series header. Bodies of less than ten
/// bytes have no header.
pub open spec fn locate(data: Seq<u8>) -> Option<BlockHeader> {
    if data.len() >= 12 {
        if fits(data, q_header(data)) && !fits(data, r_header(data)) {
            Some(q_header(data))
        } else {
            Some(r_header(data))
        }
    } else if data.len() >= 10 {
        Some(q_header(data))
    } else {
        None
    }
}

/// The device code under which the store is addressed: the code of the
/// header where it fits in a byte, else 0.
pub open spec fn store_code(device_code: u16) -> u8 {
    if device_code <= 255 {
        device_code as u8
    } else {
        0
    }
}

/// Whether a byte is an ASCII hex digit, of either case.
pub open spec fn is_hex_digit(byte: u8) -> bool {
    (0x30 <= byte <= 0x39) || (0x41 <= byte <= 0x46) || (0x61 <= byte <= 0x66)
}

/// The reply to an echo request: its payload, which must be 1 to 960 ASCII
/// hex digits.
pub open spec fn echo_reply(payload: Seq<u8>) -> Result<Seq<u8>, HandlerError> {
    if payload.len() < 1 || payload.len() > ECHO_MAX_LEN {
        Err(HandlerError::EchoLengthRange)
    } else if exists|i: int| 0 <= i < payload.len() && !is_hex_digit(#[trigger] payload[i]) {
        Err(HandlerError::EchoBadChar)
    } else {
        Ok(payload)
    }
}

/// The words of a word write: `count` little-endian words from `offset` on.
pub open spec fn words_at(data: Seq<u8>, offset: int, count: nat) -> Seq<Word> {
    Seq::new(count, |i: int| le16(data[offset + 2 * i], data[offset + 2 * i + 1]))
}

/// Point `i` of a nibble-packed payload, high nibble first: 1 where its
/// nibble is not zero, 0 where it is zero or the payload ends before it.
pub open spec fn nibble_bit(payload: Seq<u8>, i: int) -> Word {
    if i / 2 >= payload.len() {
        0
    } else if i % 2 == 0 {
        if payload[i / 2] / 16 != 0 {
            1
        } else {
            0
        }
    } else {
        if payload[i / 2] % 16 != 0 {
            1
        } else {
            0
        }
    }
}

/// The points of a bit write, one word each.
pub open spec fn bits_at(data: Seq<u8>, offset: int, count: nat) -> Seq<Word> {
    Seq::new(count, |i: int| nibble_bit(data.skip(offset), i))
}

/// Words on the wire, low byte first.
pub open spec fn words_le(words: Seq<Word>) -> Seq<u8> {
    Seq::new(
        2 * words.len(),
        |i: int|
            if i % 2 == 0 {
                (words[i / 2] % 256) as u8
            } else {
                (words[i / 2] / 256) as u8
            },
    )
}

/// Words on the wire, high byte first.
pub open spec fn words_be(words: Seq<Word>) -> Seq<u8> {
    Seq::new(
        2 * words.len(),
        |i: int|
            if i % 2 == 0 {
                (words[i / 2] / 256) as u8
            } else {
                (words[i / 2] % 256) as u8
            },
    )
}

/// 1 for a word that is not zero, else 0.
pub open spec fn bit_of(word: Word) -> u8 {
    if word != 0 {
        1
    } else {
        0
    }
}

/// Points packed two to a byte. With `high_first` the first point of a pair
/// takes the high nibble; the second point of a last, odd pair is 0.
pub open spec fn nibbles(points: Seq<Word>, high_first: bool) -> Seq<u8> {
    Seq::new(
        ((points.len() + 1) / 2) as nat,
        |k: int|
            {
                let first = bit_of(points[2 * k]);
                let second = if 2 * k + 1 < points.len() {
                    bit_of(points[2 * k + 1])
                } else {
                    0
                };
                if high_first {
                    (first * 16 + second) as u8
                } else {
                    (second * 16 + first) as u8
                }
            },
    )
}

/// What a write request does to the store.
pub open spec fn apply_write(areas: Areas, header: BlockHeader, words: Seq<Word>) -> Areas {
    write_words(areas, store_code(header.device_code), header.start as int, words)
}

/// Reads the header of a read or write body.
pub fn read_start_and_device_and_count(data: &[u8]) -> (header: Option<BlockHeader>)
    requires
        data@.len() >= 4,
    ensures
        header == locate(data@),
{
    if data.len() < 10 {
        return None;
    }
    let q = BlockHeader {
        start: data[4] as u32 + 256 * (data[5] as u32) + 65536 * (data[6] as u32),
        device_code: data[7] as u16,
        count: data[8] as u16 + 256 * (data[9] as u16),
        data_offset: 10,
    };
    if data.len() < 12 {
        return Some(q);
    }
    let r = BlockHeader {
        start: data[4] as u32 + 256 * (data[5] as u32) + 65536 * (data[6] as u32) + 16777216 * (
        data[7] as u32),
        device_code: data[8] as u16 + 256 * (data[9] as u16),
        count: data[10] as u16 + 256 * (data[11] as u16),
        data_offset: 12,
    };
    let command: u16 = data[0] as u16 + 256 * (data[1] as u16);
    let sub: u16 = data[2] as u16 + 256 * (data[3] as u16);
    let bit_write = (command == COMMAND_WRITE || command == COMMAND_WRITE_RANDOM) && (sub == 0x0001
        || sub == 0x0003);
    let expected_q: usize = if bit_write {
        (q.count as usize + 1) / 2
    } else {
        q.count as usize * 2
    };
    let expected_r: usize = if bit_write {
        (r.count as usize + 1) / 2
    } else {
        r.count as usize * 2
    };
    let fits_q = data.len() - 10 == expected_q;
    let fits_r = data.len() - 12 == expected_r;
    if fits_q && !fits_r {
        Some(q)
    } else {
        Some(r)
    }
}

/// Serves the echo command: hands the payload back, where it is 1 to 960
/// ASCII hex digits.
pub fn echo(payload: &[u8]) -> (reply: Result<Vec<u8>, HandlerError>)
    ensures
        match echo_reply(payload@) {
            Ok(bytes) => reply matches Ok(out) && out@ == bytes,
            Err(error) => reply == Err::<Vec<u8>, HandlerError>(error),
        },
{
    if payload.len() < 1 || payload.len() > ECHO_MAX_LEN {
        return Err(HandlerError::EchoLengthRange);
    }
    let mut out: Vec<u8> = Vec::new();
    let mut i: usize = 0;
    while i < payload.len()
        invariant
            i <= payload@.len(),
            1 <= payload@.len() <= ECHO_MAX_LEN,
            out@ == payload@.subrange(0, i as int),
            forall|j: int| 0 <= j < i ==> is_hex_digit(#[trigger] payload@[j]),
        decreases payload@.len() - i,
    {
        let byte: u8 = payload[i];
        let ok = (0x30 <= byte && byte <= 0x39) || (0x41 <= byte && byte <= 0x46) || (0x61 <= byte
            && byte <= 0x66);
        if !ok {
            assert(!is_hex_digit(payload@[i as int]));
            return Err(HandlerError::EchoBadChar);
        }
        out.push(byte);
        assert(out@ =~= payload@.subrange(0, i + 1));
        i += 1;
    }
    assert(payload@.subrange(0, i as int) =~= payload@);
    Ok(out)
}

/// Decodes the words of a word write.
pub fn decode_words(data: &[u8], offset: usize, count: usize) -> (words: Vec<Word>)
    requires
        offset + 2 * count <= data@.len(),
    ensures
        words@ == words_at(data@, offset as int, count as nat),
{
    let mut words: Vec<Word> = Vec::new();
    let total: usize = data.len();
    let mut i: usize = 0;
    while i < count
        invariant
            i <= count,
            offset + 2 * count <= data@.len() == total,
            words@.len() == i,
            forall|j: int|
                0 <= j < i ==> words@[j] == le16(
                    data@[offset + 2 * j],
                    data@[offset + 2 * j + 1],
                ),
        decreases count - i,
    {
        let at: usize = offset + 2 * i;
        let word: u16 = data[at] as u16 + 256 * (data[at + 1] as u16);
        words.push(word);
        i += 1;
    }
    assert(words@ =~= words_at(data@, offset as int, count as nat));
    words
}

/// Decodes the points of a bit write, one word of 0 or 1 for each.
pub fn decode_bits(data: &[u8], offset: usize, count: usize) -> (bits: Vec<Word>)
    requires
        offset <= data@.len(),
    ensures
        bits@ == bits_at(data@, offset as int, count as nat),
{
    let payload = slice_subrange(data, offset, data.len());
    assert(payload@ =~= data@.skip(offset as int));
    let mut bits: Vec<Word> = Vec::new();
    let mut i: usize = 0;
    while i < count
        invariant
            i <= count,
            bits@.len() == i,
            forall|j: int| 0 <= j < i ==> bits@[j] == nibble_bit(payload@, j),
        decreases count - i,
    {
        let at: usize = i / 2;
        let bit: Word = if at >= payload.len() {
            0
        } else {
            let byte: u8 = payload[at];
            let nibble: u8 = if i % 2 == 0 {
                byte / 16
            } else {
                byte % 16
            };
            if nibble != 0 {
                1
            } else {
                0
            }
        };
        bits.push(bit);
        i += 1;
    }
    assert(bits@ =~= bits_at(data@, offset as int, count as nat));
    bits
}

/// Appends words to `out`, low byte first or high byte first.
pub fn encode_words(out: &mut Vec<u8>, words: &[Word], little_endian: bool)
    ensures
        final(out)@ == old(out)@ + if little_endian {
            words_le(words@)
        } else {
            words_be(words@)
        },
{
    let ghost encoded = if little_endian {
        words_le(words@)
    } else {
        words_be(words@)
    };
    let mut i: usize = 0;
    while i < words.len()
        invariant
            i <= words@.len(),
            encoded == if little_endian {
                words_le(words@)
            } else {
                words_be(words@)
            },
            out@ == old(out)@ + encoded.subrange(0, 2 * i),
        decreases words@.len() - i,
    {
        let word: Word = words[i];
        let low: u8 = (word % 256) as u8;
        let high: u8 = (word / 256) as u8;
        if little_endian {
            out.push(low);
            out.push(high);
        } else {
            out.push(high);
            out.push(low);
        }
        assert(out@ =~= old(out)@ + encoded.subrange(0, 2 * (i + 1)));
        i += 1;
    }
    assert(encoded.subrange(0, 2 * i) =~= encoded);
}

/// Appends points to `out`, two to a byte.
pub fn encode_nibbles(out: &mut Vec<u8>, points: &[Word], high_first: bool)
    ensures
        final(out)@ == old(out)@ + nibbles(points@, high_first),
{
    let ghost packed = nibbles(points@, high_first);
    let mut i: usize = 0;
    while i < points.len()
        invariant
            i % 2 == 0,
            i <= points@.len() + 1,
            packed == nibbles(points@, high_first),
            out@ == old(out)@ + packed.subrange(0, i as int / 2),
        decreases points@.len() + 1 - i,
    {
        let first: u8 = if points[i] != 0 {
            1
        } else {
            0
        };
        let second: u8 = if i + 1 < points.len() && points[i + 1] != 0 {
            1
        } else {
            0
        };
        let byte: u8 = if high_first {
            first * 16 + second
        } else {
            second * 16 + first
        };
        out.push(byte);
        assert(out@ =~= old(out)@ + packed.subrange(0, (i as int + 2) / 2));
        if i + 1 < points.len() {
            i += 2;
        } else {
            i += 1;
            assert(i == points@.len());
            assert(packed.subrange(0, (i as int + 1) / 2) =~= packed);
            return ;
        }
    }
    assert(packed.subrange(0, i as int / 2) =~= packed);
}

/// A store and the reply to a request: what handling a request results in.
pub struct Outcome {
    pub areas: Areas,
    pub reply: Result<Seq<u8>, HandlerError>,
}

/// The outcome of writing `words` at the header's address: the store with
/// the words laid over the device's area and an empty reply, or the store as
/// it was and an error where the range ends beyond the addressable.
pub open spec fn write_outcome(areas: Areas, header: BlockHeader, words: Seq<Word>) -> Outcome {
    if header.start + words.len() > usize::MAX {
        Outcome { areas, reply: Err(HandlerError::AddressRange) }
    } else {
        Outcome { areas: apply_write(areas, header, words), reply: Ok(Seq::empty()) }
    }
}

/// The outcome of a bit write: each point is stored as a word of 0 or 1. A
/// write of no points leaves the store as it was.
pub open spec fn bits_outcome(areas: Areas, data: Seq<u8>, header: BlockHeader) -> Outcome {
    if header.count == 0 {
        Outcome { areas, reply: Ok(Seq::empty()) }
    } else {
        write_outcome(areas, header, bits_at(data, header.data_offset as int, header.count as nat))
    }
}

/// The words that a read addresses.
pub open spec fn read_block_words(areas: Areas, header: BlockHeader) -> Seq<Word> {
    read_words(areas, store_code(header.device_code), header.start as int, header.count as nat)
}

/// The four canonical commands, served without a descriptor: read words
/// (`0401` with subcommand 0 or 2), read bits (`0401` with 1 or 3), write
/// words (`1401` with 0 or 2) and write bits (`1401` with 1 or 3). A body
/// without a header, and any other command, gets an empty reply.
pub open spec fn fallback(areas: Areas, data: Seq<u8>) -> Outcome {
    let command = command_of(data);
    let sub = subcommand_of(data);
    let empty = Outcome { areas, reply: Ok(Seq::empty()) };
    if command == COMMAND_READ && (sub == 0x0000 || sub == 0x0002) {
        match locate(data) {
            Some(header) => Outcome {
                areas,
                reply: Ok(words_le(read_block_words(areas, header))),
            },
            None => empty,
        }
    } else if command == COMMAND_READ && (sub == 0x0001 || sub == 0x0003) {
        match locate(data) {
            Some(header) => Outcome {
                areas,
                reply: Ok(nibbles(read_block_words(areas, header), true)),
            },
            None => empty,
        }
    } else if command == COMMAND_WRITE && (sub == 0x0000 || sub == 0x0002) {
        match locate(data) {
            Some(header) => if data.len() < header.data_offset + 2 * header.count {
                Outcome { areas, reply: Err(HandlerError::WriteTooShort) }
            } else {
                write_outcome(
                    areas,
                    header,
                    words_at(data, header.data_offset as int, header.count as nat),
                )
            },
            None => empty,
        }
    } else if command == COMMAND_WRITE && (sub == 0x0001 || sub == 0x0003) {
        match locate(data) {
            Some(header) => bits_outcome(areas, data, header),
            None => empty,
        }
    } else {
        empty
    }
}

/// The parameters that the handler hands to the response builder: start
/// address, device code and count of the header, and one block of that count
/// under each of `data_blocks` and `bit_blocks`; an empty object where the
/// body has no header.
pub open spec fn request_params(header: Option<BlockHeader>) -> ParamsView {
    match header {
        Some(header) => {
            let block = ElementView::Block(
                seq![("count"@, ScalarView::Number(header.count as u64))],
            );
            ParamsView::Object(
                seq![
                    ("start_addr"@, ParamView::Value(ScalarView::Number(header.start as u64))),
                    (
                        "device_code"@,
                        ParamView::Value(ScalarView::Number(header.device_code as u64)),
                    ),
                    ("count"@, ParamView::Value(ScalarView::Number(header.count as u64))),
                    ("data_blocks"@, ParamView::Array(seq![block])),
                    ("bit_blocks"@, ParamView::Array(seq![block])),
                ],
            )
        },
        None => ParamsView::Object(Seq::empty()),
    }
}

/// A command served by its descriptor. A word write and a bit write are
/// applied to the store at once and get an empty reply; a word write that
/// declares more words than the body holds is refused. Anything else is
/// rendered by the response builder; where that fails, the request is served
/// as if there were no descriptor.
pub open spec fn described(areas: Areas, data: Seq<u8>, descriptor: CommandView) -> Outcome {
    let header = locate(data);
    if descriptor.id == Command::WriteWords && header is Some {
        if data.len() < header->0.data_offset + 2 * header->0.count {
            Outcome { areas, reply: Err(HandlerError::WriteTooShort) }
        } else {
            write_outcome(
                areas,
                header->0,
                words_at(data, header->0.data_offset as int, header->0.count as nat),
            )
        }
    } else if descriptor.id == Command::WriteBits && header is Some {
        bits_outcome(areas, data, header->0)
    } else {
        match response_of(descriptor, request_params(header), areas) {
            Ok(bytes) => Outcome { areas, reply: Ok(bytes) },
            Err(_) => fallback(areas, data),
        }
    }
}

/// Whether a body of at least four bytes is an echo request.
pub open spec fn is_echo(data: Seq<u8>) -> bool {
    command_of(data) == COMMAND_ECHO && subcommand_of(data) == 0x0000
}

/// The command and subcommand for which a request body needs a descriptor:
/// none for a body of less than four bytes and for the echo command, which
/// are served without one.
pub open spec fn wanted_descriptor(data: Seq<u8>) -> Option<(u16, u16)> {
    if data.len() < 4 || is_echo(data) {
        None
    } else {
        Some((command_of(data), subcommand_of(data)))
    }
}

/// Whether `found` can be what the registry holds for the wanted command:
/// nothing where none is wanted, else nothing or a descriptor that was found
/// under that command and subcommand.
pub open spec fn found_for(wanted: Option<(u16, u16)>, found: Option<CommandView>) -> bool {
    match found {
        Some(descriptor) => wanted == Some((descriptor.command_code, descriptor.subcommand)),
        None => true,
    }
}

/// What handling a request body results in, given the descriptor that the
/// registry holds for its command, if any. Bodies of less than four bytes
/// are refused; the echo command is served before any descriptor is looked
/// at.
pub open spec fn dispatch(areas: Areas, data: Seq<u8>, found: Option<CommandView>) -> Outcome {
    if data.len() < 4 {
        Outcome { areas, reply: Err(HandlerError::RequestTooShort) }
    } else if is_echo(data) {
        Outcome { areas, reply: echo_reply(data.skip(4)) }
    } else {
        match found {
            Some(descriptor) => described(areas, data, descriptor),
            None => fallback(areas, data),
        }
    }
}

/// Builds the parameters that the handler hands to the response builder.
pub fn build_request_params(header: Option<BlockHeader>) -> (params: Params)
    ensures
        params@ == request_params(header),
{
    match header {
        Some(header) => {
            let mut data_fields: Vec<Field> = Vec::new();
            data_fields.push(
                Field {
                    name: String::from_str("count"),
                    value: Scalar::Number(header.count as u64),
                },
            );
            let mut bit_fields: Vec<Field> = Vec::new();
            bit_fields.push(
                Field {
                    name: String::from_str("count"),
                    value: Scalar::Number(header.count as u64),
                },
            );
            let mut data_blocks: Vec<Element> = Vec::new();
            data_blocks.push(Element::Block(data_fields));
            let mut bit_blocks: Vec<Element> = Vec::new();
            bit_blocks.push(Element::Block(bit_fields));
            let mut members: Vec<Member> = Vec::new();
            members.push(
                Member {
                    name: String::from_str("start_addr"),
                    value: Param::Value(Scalar::Number(header.start as u64)),
                },
            );
            members.push(
                Member {
                    name: String::from_str("device_code"),
                    value: Param::Value(Scalar::Number(header.device_code as u64)),
                },
            );
            members.push(
                Member {
                    name: String::from_str("count"),
                    value: Param::Value(Scalar::Number(header.count as u64)),
                },
            );
            members.push(Member { name: String::from_str("data_blocks"), value: Param::Array(data_blocks) });
            members.push(Member { name: String::from_str("bit_blocks"), value: Param::Array(bit_blocks) });
            let params = Params::Object(members);
            proof {
                let block = ElementView::Block(
                    seq![("count"@, ScalarView::Number(header.count as u64))],
                );
                assert(fields_view(data_fields@) =~= seq![
                    ("count"@, ScalarView::Number(header.count as u64)),
                ]);
                assert(fields_view(bit_fields@) =~= seq![
                    ("count"@, ScalarView::Number(header.count as u64)),
                ]);
                assert(elements_view(data_blocks@) =~= seq![block]);
                assert(elements_view(bit_blocks@) =~= seq![block]);
                assert(members_view(members@) =~= seq![
                    ("start_addr"@, ParamView::Value(ScalarView::Number(header.start as u64))),
                    (
                        "device_code"@,
                        ParamView::Value(ScalarView::Number(header.device_code as u64)),
                    ),
                    ("count"@, ParamView::Value(ScalarView::Number(header.count as u64))),
                    ("data_blocks"@, ParamView::Array(seq![block])),
                    ("bit_blocks"@, ParamView::Array(seq![block])),
                ]);
            }
            params
        },
        None => {
            let members: Vec<Member> = Vec::new();
            assert(members_view(members@) =~= Seq::<(Seq<char>, ParamView)>::empty());
            Params::Object(members)
        },
    }
}

fn store_key(header: &BlockHeader) -> (key: DeviceKey)
    ensures
        key.code == store_code(header.device_code),
{
    DeviceKey::from_code(
        if header.device_code <= 255 {
            header.device_code as u8
        } else {
            0
        },
    )
}

fn write_block(store: &mut DeviceMap, header: &BlockHeader, words: &[Word]) -> (reply: Result<
    Vec<u8>,
    HandlerError,
>)
    ensures
        final(store)@ == write_outcome(old(store)@, *header, words@).areas,
        match write_outcome(old(store)@, *header, words@).reply {
            Ok(bytes) => reply matches Ok(out) && out@ == bytes,
            Err(error) => reply == Err::<Vec<u8>, HandlerError>(error),
        },
{
    let start: usize = header.start as usize;
    match start.checked_add(words.len()) {
        Some(_) => {
            store.write_at(store_key(header), start, words);
            Ok(Vec::new())
        },
        None => Err(HandlerError::AddressRange),
    }
}

fn write_bits(store: &mut DeviceMap, data: &[u8], header: &BlockHeader) -> (reply: Result<
    Vec<u8>,
    HandlerError,
>)
    requires
        header.data_offset <= data@.len(),
    ensures
        final(store)@ == bits_outcome(old(store)@, data@, *header).areas,
        match bits_outcome(old(store)@, data@, *header).reply {
            Ok(bytes) => reply matches Ok(out) && out@ == bytes,
            Err(error) => reply == Err::<Vec<u8>, HandlerError>(error),
        },
{
    if header.count == 0 {
        return Ok(Vec::new());
    }
    let bits = decode_bits(data, header.data_offset, header.count as usize);
    write_block(store, header, bits.as_slice())
}

fn read_block_from(store: &DeviceMap, header: &BlockHeader) -> (words: Vec<Word>)
    ensures
        words@ == read_block_words(store@, *header),
{
    store.read_at(store_key(header), header.start as usize, header.count as usize)
}

fn serve_fallback(store: &mut DeviceMap, data: &[u8]) -> (reply: Result<Vec<u8>, HandlerError>)
    requires
        data@.len() >= 4,
    ensures
        final(store)@ == fallback(old(store)@, data@).areas,
        match fallback(old(store)@, data@).reply {
            Ok(bytes) => reply matches Ok(out) && out@ == bytes,
            Err(error) => reply == Err::<Vec<u8>, HandlerError>(error),
        },
{
    let command: u16 = data[0] as u16 + 256 * (data[1] as u16);
    let sub: u16 = data[2] as u16 + 256 * (data[3] as u16);
    let header = read_start_and_device_and_count(data);
    let mut out: Vec<u8> = Vec::new();
    if command == COMMAND_READ && (sub == 0x0000 || sub == 0x0002) {
        match header {
            Some(header) => {
                let words = read_block_from(store, &header);
                encode_words(&mut out, words.as_slice(), true);
                assert(out@ =~= words_le(words@));
            },
            None => {},
        }
        Ok(out)
    } else if command == COMMAND_READ && (sub == 0x0001 || sub == 0x0003) {
        match header {
            Some(header) => {
                let words = read_block_from(store, &header);
                encode_nibbles(&mut out, words.as_slice(), true);
                assert(out@ =~= nibbles(words@, true));
            },
            None => {},
        }
        Ok(out)
    } else if command == COMMAND_WRITE && (sub == 0x0000 || sub == 0x0002) {
        match header {
            Some(header) => {
                if data.len() - header.data_offset < 2 * (header.count as usize) {
                    return Err(HandlerError::WriteTooShort);
                }
                let words = decode_words(data, header.data_offset, header.count as usize);
                write_block(store, &header, words.as_slice())
            },
            None => Ok(out),
        }
    } else if command == COMMAND_WRITE && (sub == 0x0001 || sub == 0x0003) {
        match header {
            Some(header) => write_bits(store, data, &header),
            None => Ok(out),
        }
    } else {
        Ok(out)
    }
}

fn serve_described(store: &mut DeviceMap, data: &[u8], descriptor: &CommandDescriptor) -> (reply:
    Result<Vec<u8>, HandlerError>)
    requires
        data@.len() >= 4,
    ensures
        final(store)@ == described(old(store)@, data@, descriptor@).areas,
        match described(old(store)@, data@, descriptor@).reply {
            Ok(bytes) => reply matches Ok(out) && out@ == bytes,
            Err(error) => reply == Err::<Vec<u8>, HandlerError>(error),
        },
{
    let header = read_start_and_device_and_count(data);
    match descriptor.id {
        Command::WriteWords => {
            match header {
                Some(header) => {
                    if data.len() - header.data_offset < 2 * (header.count as usize) {
                        return Err(HandlerError::WriteTooShort);
                    }
                    let words = decode_words(data, header.data_offset, header.count as usize);
                    return write_block(store, &header, words.as_slice());
                },
                None => {},
            }
        },
        Command::WriteBits => {
            match header {
                Some(header) => {
                    return write_bits(store, data, &header);
                },
                None => {},
            }
        },
        _ => {},
    }
    let params = build_request_params(header);
    match build_response(descriptor, &params, store) {
        Ok(out) => Ok(out),
        Err(_) => serve_fallback(store, data),
    }
}

/// The descriptor as contracts see it, where there is one.
pub open spec fn found_view(found: Option<&CommandDescriptor>) -> Option<CommandView> {
    match found {
        Some(descriptor) => Some(descriptor@),
        None => None,
    }
}

/// Handles a request body against the store, given the descriptor that the
/// registry holds for its command, if any. Writes are applied before the
/// reply is returned; a refused request leaves the store as it was.
pub fn dispatch_request(store: &mut DeviceMap, data: &[u8], found: Option<&CommandDescriptor>) -> (reply:
    Result<Vec<u8>, HandlerError>)
    ensures
        final(store)@ == dispatch(old(store)@, data@, found_view(found)).areas,
        match dispatch(old(store)@, data@, found_view(found)).reply {
            Ok(bytes) => reply matches Ok(out) && out@ == bytes,
            Err(error) => reply == Err::<Vec<u8>, HandlerError>(error),
        },
{
    if data.len() < 4 {
        return Err(HandlerError::RequestTooShort);
    }
    let command: u16 = data[0] as u16 + 256 * (data[1] as u16);
    let sub: u16 = data[2] as u16 + 256 * (data[3] as u16);
    if command == COMMAND_ECHO && sub == 0x0000 {
        let payload = slice_subrange(data, 4, data.len());
        assert(payload@ =~= data@.skip(4));
        return echo(payload);
    }
    match found {
        Some(descriptor) => serve_described(store, data, descriptor),
        None => serve_fallback(store, data),
    }
}

/// The command and subcommand for which a request body needs a descriptor.
pub fn request_command(data: &[u8]) -> (wanted: Option<(u16, u16)>)
    ensures
        wanted == wanted_descriptor(data@),
{
    if data.len() < 4 {
        return None;
    }
    let command: u16 = data[0] as u16 + 256 * (data[1] as u16);
    let sub: u16 = data[2] as u16 + 256 * (data[3] as u16);
    if command == COMMAND_ECHO && sub == 0x0000 {
        None
    } else {
        Some((command, sub))
    }
}

/// Handles a request against the store and returns the logical payload of
/// the reply. Where the request needs a descriptor, the registry of the
/// process is asked for the one of its command and subcommand. The registry
/// is not part of this library: the contract says what holds whichever
/// descriptor of that command it hands out, and is exact where none is
/// wanted, that is for a body of less than four bytes and for the echo
/// command.
pub fn handle_request_and_apply_store(store: &mut DeviceMap, req: &McRequest) -> (reply: Result<
    Vec<u8>,
    HandlerError,
>)
    ensures
        exists|found: Option<CommandView>|
            {
                let outcome = #[trigger] dispatch(old(store)@, req.request_data@, found);
                &&& found_for(wanted_descriptor(req.request_data@), found)
                &&& final(store)@ == outcome.areas
                &&& match outcome.reply {
                    Ok(bytes) => reply matches Ok(out) && out@ == bytes,
                    Err(error) => reply == Err::<Vec<u8>, HandlerError>(error),
                }
            },
{
    let data = req.request_data.as_slice();
    let found = match request_command(data) {
        Some((command, sub)) => lookup_command(command, sub),
        None => None,
    };
    let chosen: Option<&CommandDescriptor> = found.as_ref();
    let reply = dispatch_request(store, data, chosen);
    assert(dispatch(old(store)@, req.request_data@, found_view(chosen)).areas == store@);
    assert(found_for(wanted_descriptor(req.request_data@), found_view(chosen)));
    reply
}

/// Write then read through the handler: after a word write was served, a
/// word read of the same device, start and count replies with the written
/// words, low byte first, and leaves the store as the write left it. The
/// write may be served with or without a descriptor, the read without one.
/// Both bodies must be read in the layout they were written in, the write
/// must hold all its data, and the range must be addressable.
pub proof fn lemma_write_then_read_words(
    areas: Areas,
    write: Seq<u8>,
    read: Seq<u8>,
    writer: Option<CommandView>,
)
    requires
        write.len() >= 4,
        command_of(write) == COMMAND_WRITE,
        subcommand_of(write) == 0x0000 || subcommand_of(write) == 0x0002,
        writer matches Some(descriptor) ==> descriptor.id == Command::WriteWords,
        locate(write) matches Some(target) && write.len() >= target.data_offset + 2
            * target.count && target.start + target.count <= usize::MAX,
        read.len() >= 4,
        command_of(read) == COMMAND_READ,
        subcommand_of(read) == 0x0000 || subcommand_of(read) == 0x0002,
        locate(read) matches Some(source) && source.start == locate(write)->0.start
            && source.count == locate(write)->0.count && store_code(source.device_code)
            == store_code(locate(write)->0.device_code),
    ensures
        dispatch(areas, write, writer).reply == Ok::<Seq<u8>, HandlerError>(Seq::empty()),
        dispatch(dispatch(areas, write, writer).areas, read, None).reply == Ok::<
            Seq<u8>,
            HandlerError,
        >(
            words_le(
                words_at(
                    write,
                    locate(write)->0.data_offset as int,
                    locate(write)->0.count as nat,
                ),
            ),
        ),
        dispatch(dispatch(areas, write, writer).areas, read, None).areas == dispatch(
            areas,
            write,
            writer,
        ).areas,
{
    let target = locate(write)->0;
    let words = words_at(write, target.data_offset as int, target.count as nat);
    lemma_read_after_write(areas, store_code(target.device_code), target.start as int, words);
}

/// Write then read, bits: after a bit write of at least one point was
/// served, a bit read of the same device, start and count replies with the
/// written points, two to a byte with the first in the high nibble.
pub proof fn lemma_write_then_read_bits(
    areas: Areas,
    write: Seq<u8>,
    read: Seq<u8>,
    writer: Option<CommandView>,
)
    requires
        write.len() >= 4,
        command_of(write) == COMMAND_WRITE,
        subcommand_of(write) == 0x0001 || subcommand_of(write) == 0x0003,
        writer matches Some(descriptor) ==> descriptor.id == Command::WriteBits,
        locate(write) matches Some(target) && target.count > 0 && target.start + target.count
            <= usize::MAX,
        read.len() >= 4,
        command_of(read) == COMMAND_READ,
        subcommand_of(read) == 0x0001 || subcommand_of(read) == 0x0003,
        locate(read) matches Some(source) && source.start == locate(write)->0.start
            && source.count == locate(write)->0.count && store_code(source.device_code)
            == store_code(locate(write)->0.device_code),
    ensures
        dispatch(areas, write, writer).reply == Ok::<Seq<u8>, HandlerError>(Seq::empty()),
        dispatch(dispatch(areas, write, writer).areas, read, None).reply == Ok::<
            Seq<u8>,
            HandlerError,
        >(
            nibbles(
                bits_at(write, locate(write)->0.data_offset as int, locate(write)->0.count as nat),
                true,
            ),
        ),
{
    let target = locate(write)->0;
    let bits = bits_at(write, target.data_offset as int, target.count as nat);
    lemma_read_after_write(areas, store_code(target.device_code), target.start as int, bits);
}

/// A read served by a descriptor that renders the blocks under
/// `data_blocks` as words, and has no block template, replies like the read
/// that is served without a descriptor, in the byte order of the entry.
pub proof fn lemma_described_read_words(
    areas: Areas,
    data: Seq<u8>,
    descriptor: CommandView,
    le: bool,
)
    requires
        descriptor.id != Command::WriteWords && descriptor.id != Command::WriteBits,
        descriptor.response_entries == seq![EntryView::BlockWords { name: "data_blocks"@, le }],
        descriptor.block_templates.len() == 0,
        locate(data) is Some,
    ensures
        described(areas, data, descriptor) == (Outcome {
            areas,
            reply: Ok(
                if le {
                    words_le(read_block_words(areas, locate(data)->0))
                } else {
                    words_be(read_block_words(areas, locate(data)->0))
                },
            ),
        }),
{
    reveal_strlit("start_addr");
    reveal_strlit("device_code");
    reveal_strlit("count");
    reveal_strlit("data_blocks");
    reveal_strlit("bit_blocks");
    let header = locate(data)->0;
    let entry = EntryView::BlockWords { name: "data_blocks"@, le };
    let params = request_params(Some(header));
    let fields = seq![("count"@, ScalarView::Number(header.count as u64))];
    let block = ElementView::Block(fields);
    let members = params->Object_0;
    let none = Seq::<Seq<char>>::empty();
    assert("start_addr"@[0] != "data_blocks"@[0]);
    assert("count"@[0] != "data_blocks"@[0]);
    assert("device_code"@[1] != "data_blocks"@[1]);
    assert("start_addr"@[0] != "count"@[0]);
    assert("device_code"@[0] != "count"@[0]);
    assert("start_addr"@[0] != "device_code"@[0]);
    assert(is_first_named(members, "data_blocks"@, 3));
    assert(is_first_named(members, "start_addr"@, 0));
    assert(is_first_named(members, "device_code"@, 1));
    assert(is_first_named(members, "count"@, 2));
    assert(is_first_named(fields, "count"@, 0));
    assert(named(fields, "start_addr"@) is None);
    assert(named(fields, "device_code"@) is None);
    assert(top_array(params, "data_blocks"@) == Some(seq![block]));
    assert(template_fields(descriptor.block_templates, "data_blocks"@) == none);
    assert(block_value(Role::Start, block, params, none) == Some(header.start as u64));
    assert(block_value(Role::Device, block, params, none) == Some(header.device_code as u64));
    assert(block_value(Role::Count, block, params, none) == Some(header.count as u64));
    assert(block_words(block, params, none, areas) == read_block_words(areas, header));
    let blocks = seq![block];
    assert(blocks.drop_last() =~= Seq::<ElementView>::empty());
    assert(blocks.last() == block);
    assert(blocks_output(entry, blocks.drop_last(), params, none, areas) =~= Seq::<u8>::empty());
    let rendered = if le {
        words_le(read_block_words(areas, header))
    } else {
        words_be(read_block_words(areas, header))
    };
    assert(blocks_output(entry, blocks, params, none, areas) =~= rendered);
    assert(entry_output(entry, descriptor, params, areas) == Ok::<Seq<u8>, HandlerError>(
        rendered,
    ));
    assert(response_upto(descriptor, params, areas, 0) == Ok::<Seq<u8>, HandlerError>(
        Seq::empty(),
    ));
    assert(Seq::<u8>::empty() + rendered =~= rendered);
    assert(response_upto(descriptor, params, areas, 1) == Ok::<Seq<u8>, HandlerError>(rendered));
}

/// Write then read, the read served by a descriptor: after a word write was
/// served, a word read of the same device, start and count that is served by
/// a descriptor which renders the blocks under `data_blocks` as words
/// replies with the written words, in the byte order of the descriptor.
pub proof fn lemma_write_then_described_read(
    areas: Areas,
    write: Seq<u8>,
    read: Seq<u8>,
    writer: Option<CommandView>,
    reader: CommandView,
    le: bool,
)
    requires
        write.len() >= 4,
        command_of(write) == COMMAND_WRITE,
        subcommand_of(write) == 0x0000 || subcommand_of(write) == 0x0002,
        writer matches Some(descriptor) ==> descriptor.id == Command::WriteWords,
        locate(write) matches Some(target) && write.len() >= target.data_offset + 2
            * target.count && target.start + target.count <= usize::MAX,
        read.len() >= 4,
        !is_echo(read),
        reader.id != Command::WriteWords && reader.id != Command::WriteBits,
        reader.response_entries == seq![EntryView::BlockWords { name: "data_blocks"@, le }],
        reader.block_templates.len() == 0,
        locate(read) matches Some(source) && source.start == locate(write)->0.start
            && source.count == locate(write)->0.count && store_code(source.device_code)
            == store_code(locate(write)->0.device_code),
    ensures
        dispatch(dispatch(areas, write, writer).areas, read, Some(reader)).reply == Ok::<
            Seq<u8>,
            HandlerError,
        >(
            if le {
                words_le(
                    words_at(
                        write,
                        locate(write)->0.data_offset as int,
                        locate(write)->0.count as nat,
                    ),
                )
            } else {
                words_be(
                    words_at(
                        write,
                        locate(write)->0.data_offset as int,
                        locate(write)->0.count as nat,
                    ),
                )
            },
        ),
{
    let target = locate(write)->0;
    let words = words_at(write, target.data_offset as int, target.count as nat);
    lemma_read_after_write(areas, store_code(target.device_code), target.start as int, words);
    lemma_described_read_words(dispatch(areas, write, writer).areas, read, reader, le);
}

} // verus!
