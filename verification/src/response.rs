//! The descriptor-driven response builder: renders each response entry of a
//! command descriptor from the request parameters and the device store.

use crate::device_map::{read_words, Areas, DeviceKey, DeviceMap, Word};
use crate::handler::{encode_nibbles, encode_words, nibbles, words_be, words_le, HandlerError};
use crate::params::{
    block_number, element_flag, element_number, elements_view, fields_view, is_first_named,
    member, members_view, top_array, top_number, Element, ElementView, Field, Member, Param,
    ParamView, Params, ParamsView, Scalar, ScalarView,
};
use crate::registry::{
    field_specs_view, names_view, templates_view, BlockTemplate, CommandDescriptor, CommandView,
    EntryView, FieldKind, FieldSpec, FieldView, ResponseEntry, TemplateView,
};
use crate::text::{
    ascii_bytes, chars_equal, chars_of, contains_text, parse_number, parse_number_text,
    text_contains,
};
use vstd::prelude::*;
use vstd::string::*;

verus! {

/// The three values that locate a block.
#[derive(Debug, Clone, Copy, PartialEq, Eq, Structural)]
pub enum Role {
    Start,
    Device,
    Count,
}

/// The name under which a role is looked up first.
pub open spec fn role_key(role: Role) -> Seq<char> {
    match role {
        Role::Start => "start_addr"@,
        Role::Device => "device_code"@,
        Role::Count => "count"@,
    }
}

/// Whether a template field of that name can carry the role.
pub open spec fn names_role(role: Role, name: Seq<char>) -> bool {
    match role {
        Role::Start => name == "start_addr"@ || name == "addr"@ || contains_text(name, "start"@),
        Role::Device => name == "device_code"@ || contains_text(name, "device"@),
        Role::Count => name == "count"@ || contains_text(name, "count"@),
    }
}

/// The number under `key` in the block or, failing that, at the top of the
/// parameters.
pub open spec fn number_in(block: ElementView, params: ParamsView, key: Seq<char>) -> Option<u64> {
    match block_number(block, key) {
        Some(number) => Some(number),
        None => top_number(params, key),
    }
}

/// The value of a role for a block: the number under the role's own name,
/// else the number under the first template field that can carry the role
/// and has one, in the order of `fields`.
pub open spec fn block_value(
    role: Role,
    block: ElementView,
    params: ParamsView,
    fields: Seq<Seq<char>>,
) -> Option<u64>
    decreases fields.len(),
{
    if fields.len() == 0 {
        number_in(block, params, role_key(role))
    } else {
        match block_value(role, block, params, fields.drop_last()) {
            Some(number) => Some(number),
            None => if names_role(role, fields.last()) {
                number_in(block, params, fields.last())
            } else {
                None
            },
        }
    }
}

/// Whether `at` is the first template whose name with an `s` behind it is
/// `name`.
pub open spec fn is_template_for(templates: Seq<TemplateView>, name: Seq<char>, at: int) -> bool {
    0 <= at < templates.len() && templates[at].name.push('s') == name && forall|j: int|
        0 <= j < at ==> (#[trigger] templates[j]).name.push('s') != name
}

/// The fields of the block template that belongs to the entry `name`; none
/// where no template does.
pub open spec fn template_fields(templates: Seq<TemplateView>, name: Seq<char>) -> Seq<Seq<char>> {
    if exists|at: int| is_template_for(templates, name, at) {
        templates[choose|at: int| is_template_for(templates, name, at)].fields
    } else {
        Seq::empty()
    }
}

/// The device code under which the store is read: the number where it fits
/// in a byte, else 0.
pub open spec fn code_of(device: u64) -> u8 {
    if device <= 255 {
        device as u8
    } else {
        0
    }
}

/// A value that may be missing, 0 where it is.
pub open spec fn or_zero(value: Option<u64>) -> u64 {
    match value {
        Some(number) => number,
        None => 0,
    }
}

/// The words that a block stands for: `count` words of its device from its
/// start address on, each of the three taken as 0 where it is missing.
pub open spec fn block_words(
    block: ElementView,
    params: ParamsView,
    fields: Seq<Seq<char>>,
    areas: Areas,
) -> Seq<Word> {
    read_words(
        areas,
        code_of(or_zero(block_value(Role::Device, block, params, fields))),
        or_zero(block_value(Role::Start, block, params, fields)) as usize as int,
        or_zero(block_value(Role::Count, block, params, fields)) as usize as nat,
    )
}

/// 1 where the flag at `index` exists and is set, else 0.
pub open spec fn flag_at(flags: Seq<bool>, index: int) -> int {
    if 0 <= index < flags.len() && flags[index] {
        1
    } else {
        0
    }
}

/// Byte `k` of flags packed eight to a byte: flag `8k + j` goes to bit `j`
/// where `lsb_first`, else to bit `7 - j`.
pub open spec fn packed_byte(flags: Seq<bool>, k: int, lsb_first: bool) -> u8 {
    if lsb_first {
        (flag_at(flags, 8 * k) + 2 * flag_at(flags, 8 * k + 1) + 4 * flag_at(flags, 8 * k + 2) + 8
            * flag_at(flags, 8 * k + 3) + 16 * flag_at(flags, 8 * k + 4) + 32 * flag_at(
            flags,
            8 * k + 5,
        ) + 64 * flag_at(flags, 8 * k + 6) + 128 * flag_at(flags, 8 * k + 7)) as u8
    } else {
        (128 * flag_at(flags, 8 * k) + 64 * flag_at(flags, 8 * k + 1) + 32 * flag_at(
            flags,
            8 * k + 2,
        ) + 16 * flag_at(flags, 8 * k + 3) + 8 * flag_at(flags, 8 * k + 4) + 4 * flag_at(
            flags,
            8 * k + 5,
        ) + 2 * flag_at(flags, 8 * k + 6) + flag_at(flags, 8 * k + 7)) as u8
    }
}

/// Flags packed eight to a byte; the last byte is padded with zero bits.
pub open spec fn bits_packed(flags: Seq<bool>, lsb_first: bool) -> Seq<u8> {
    Seq::new(((flags.len() + 7) / 8) as nat, |k: int| packed_byte(flags, k, lsb_first))
}

/// Each word as a flag: set where the word is not zero.
pub open spec fn word_flags(words: Seq<Word>) -> Seq<bool> {
    Seq::new(words.len(), |i: int| words[i] != 0)
}

/// Each flag as a word: 1 where it is set, else 0.
pub open spec fn flag_words(flags: Seq<bool>) -> Seq<Word> {
    Seq::new(
        flags.len(),
        |i: int|
            if flags[i] {
                1u16
            } else {
                0u16
            },
    )
}

/// A number as a word: itself where it fits in 16 bits, else 0.
pub open spec fn clip_word(number: u64) -> Word {
    if number <= 0xFFFF {
        number as u16
    } else {
        0
    }
}

/// A number as a byte: itself where it fits in 8 bits, else 0.
pub open spec fn clip_byte(number: u64) -> u8 {
    if number <= 0xFF {
        number as u8
    } else {
        0
    }
}

/// The numbers among the elements, in their order; other elements are
/// passed over.
pub open spec fn value_numbers(values: Seq<ElementView>) -> Seq<u64>
    decreases values.len(),
{
    if values.len() == 0 {
        Seq::empty()
    } else {
        match element_number(values.last()) {
            Some(number) => value_numbers(values.drop_last()).push(number),
            None => value_numbers(values.drop_last()),
        }
    }
}

/// The numbers among the elements, as words.
pub open spec fn value_words(values: Seq<ElementView>) -> Seq<Word> {
    Seq::new(value_numbers(values).len(), |i: int| clip_word(value_numbers(values)[i]))
}

/// The numbers among the elements, as bytes.
pub open spec fn value_bytes(values: Seq<ElementView>) -> Seq<u8> {
    Seq::new(value_numbers(values).len(), |i: int| clip_byte(value_numbers(values)[i]))
}

/// Every element as a flag.
pub open spec fn value_flags(values: Seq<ElementView>) -> Seq<bool> {
    Seq::new(values.len(), |i: int| element_flag(values[i]))
}

/// The byte order of words given as plain values under `name`: that of the
/// last request field of that name that holds words, and low byte first
/// where there is none.
pub open spec fn word_order(fields: Seq<FieldView>, name: Seq<char>) -> bool
    decreases fields.len(),
{
    if fields.len() == 0 {
        true
    } else {
        match fields.last().kind {
            FieldKind::Words { le } if fields.last().name == name => le,
            _ => word_order(fields.drop_last(), name),
        }
    }
}

/// The values to render for an entry that has no blocks: the array under the
/// entry's name, else the array under the name without its last `s`, or with
/// an `s` added where it has none.
pub open spec fn find_values(params: ParamsView, name: Seq<char>) -> Option<Seq<ElementView>> {
    match top_array(params, name) {
        Some(values) => Some(values),
        None => if name.len() > 0 && name.last() == 's' {
            top_array(params, name.drop_last())
        } else {
            top_array(params, name.push('s'))
        },
    }
}

/// The bytes of one block's words as the entry renders them.
pub open spec fn render(entry: EntryView, words: Seq<Word>) -> Seq<u8> {
    match entry {
        EntryView::BlockWords { le, .. } => if le {
            words_le(words)
        } else {
            words_be(words)
        },
        EntryView::BlockBitsPacked { lsb_first, .. } => bits_packed(word_flags(words), lsb_first),
        EntryView::BlockNibbles { high_first, .. } => nibbles(words, high_first),
        EntryView::AsciiHex { .. } => Seq::empty(),
    }
}

/// The bytes of all blocks of an entry, block after block.
pub open spec fn blocks_output(
    entry: EntryView,
    blocks: Seq<ElementView>,
    params: ParamsView,
    fields: Seq<Seq<char>>,
    areas: Areas,
) -> Seq<u8>
    decreases blocks.len(),
{
    if blocks.len() == 0 {
        Seq::empty()
    } else {
        blocks_output(entry, blocks.drop_last(), params, fields, areas) + render(
            entry,
            block_words(blocks.last(), params, fields, areas),
        )
    }
}

/// The bytes of an entry whose parameter is given as plain values.
pub open spec fn values_output(
    entry: EntryView,
    values: Seq<ElementView>,
    request_fields: Seq<FieldView>,
) -> Seq<u8> {
    match entry {
        EntryView::BlockWords { name, .. } => if word_order(request_fields, name) {
            words_le(value_words(values))
        } else {
            words_be(value_words(values))
        },
        EntryView::BlockBitsPacked { lsb_first, .. } => bits_packed(value_flags(values), lsb_first),
        EntryView::BlockNibbles { high_first, .. } => nibbles(
            flag_words(value_flags(values)),
            high_first,
        ),
        EntryView::AsciiHex { .. } => Seq::empty(),
    }
}

/// Whether a character is an ASCII hex digit, of either case.
pub open spec fn is_hex_char(c: char) -> bool {
    (0x30 <= c as u32 <= 0x39) || (0x41 <= c as u32 <= 0x46) || (0x61 <= c as u32 <= 0x66)
}

/// The bytes of an ASCII hex entry: a text as it is, where it holds hex
/// digits only; an array as the bytes of its numbers; nothing otherwise.
pub open spec fn ascii_output(params: ParamsView, name: Seq<char>) -> Result<
    Seq<u8>,
    HandlerError,
> {
    match member(params, name) {
        Some(ParamView::Value(ScalarView::Text(text))) => if forall|i: int|
            0 <= i < text.len() ==> is_hex_char(#[trigger] text[i]) {
            Ok(ascii_bytes(text))
        } else {
            Err(HandlerError::AsciiHexBadChar)
        },
        Some(ParamView::Array(values)) => Ok(value_bytes(values)),
        _ => Ok(Seq::empty()),
    }
}

/// The bytes of one response entry. An entry with blocks under its name
/// reads each block from the store; one without renders plain values.
pub open spec fn entry_output(
    entry: EntryView,
    descriptor: CommandView,
    params: ParamsView,
    areas: Areas,
) -> Result<Seq<u8>, HandlerError> {
    match entry {
        EntryView::AsciiHex { name } => ascii_output(params, name),
        _ => {
            let blocks = match top_array(params, entry.name()) {
                Some(blocks) => blocks,
                None => Seq::empty(),
            };
            if blocks.len() > 0 {
                Ok(
                    blocks_output(
                        entry,
                        blocks,
                        params,
                        template_fields(descriptor.block_templates, entry.name()),
                        areas,
                    ),
                )
            } else {
                match find_values(params, entry.name()) {
                    Some(values) => Ok(values_output(entry, values, descriptor.request_fields)),
                    None => Ok(Seq::empty()),
                }
            }
        },
    }
}

/// The bytes of the first `upto` response entries, or the first error among
/// them.
pub open spec fn response_upto(
    descriptor: CommandView,
    params: ParamsView,
    areas: Areas,
    upto: int,
) -> Result<Seq<u8>, HandlerError>
    decreases upto,
{
    if upto <= 0 {
        Ok(Seq::empty())
    } else {
        match response_upto(descriptor, params, areas, upto - 1) {
            Err(error) => Err(error),
            Ok(bytes) => match entry_output(
                descriptor.response_entries[upto - 1],
                descriptor,
                params,
                areas,
            ) {
                Ok(more) => Ok(bytes + more),
                Err(error) => Err(error),
            },
        }
    }
}

/// The response payload of a command: the bytes of its response entries in
/// their order, or the first error among them.
pub open spec fn response_of(descriptor: CommandView, params: ParamsView, areas: Areas) -> Result<
    Seq<u8>,
    HandlerError,
> {
    response_upto(descriptor, params, areas, descriptor.response_entries.len() as int)
}

fn role_key_chars(role: Role) -> (key: Vec<char>)
    ensures
        key@ == role_key(role),
{
    match role {
        Role::Start => chars_of("start_addr"),
        Role::Device => chars_of("device_code"),
        Role::Count => chars_of("count"),
    }
}

fn field_names_role(role: Role, name: &[char]) -> (fits: bool)
    ensures
        fits == names_role(role, name@),
{
    match role {
        Role::Start => {
            let exact = chars_of("start_addr");
            let short = chars_of("addr");
            chars_equal(name, exact.as_slice()) || chars_equal(name, short.as_slice())
                || text_contains(name, "start")
        },
        Role::Device => {
            let exact = chars_of("device_code");
            chars_equal(name, exact.as_slice()) || text_contains(name, "device")
        },
        Role::Count => {
            let exact = chars_of("count");
            chars_equal(name, exact.as_slice()) || text_contains(name, "count")
        },
    }
}

fn lookup_number(block: &Element, params: &Params, key: &[char]) -> (number: Option<u64>)
    ensures
        number == number_in(block@, params@, key@),
{
    match block.number(key) {
        Some(number) => Some(number),
        None => params.number(key),
    }
}

/// Finds the value of a role for a block, first under the role's own name,
/// then under the template fields that can carry the role.
pub fn find_block_value(role: Role, block: &Element, params: &Params, fields: &Vec<String>) -> (value:
    Option<u64>)
    ensures
        value == block_value(role, block@, params@, names_view(fields@)),
{
    let ghost names = names_view(fields@);
    let key = role_key_chars(role);
    let mut value = lookup_number(block, params, key.as_slice());
    assert(names.subrange(0, 0) =~= Seq::<Seq<char>>::empty());
    let mut i: usize = 0;
    while i < fields.len()
        invariant
            i <= fields@.len(),
            names == names_view(fields@),
            value == block_value(role, block@, params@, names.subrange(0, i as int)),
        decreases fields@.len() - i,
    {
        assert(names.subrange(0, i + 1).drop_last() =~= names.subrange(0, i as int));
        assert(names.subrange(0, i + 1).last() == fields@[i as int]@);
        if value.is_none() {
            let name = chars_of(fields[i].as_str());
            if field_names_role(role, name.as_slice()) {
                value = lookup_number(block, params, name.as_slice());
            }
        }
        i += 1;
    }
    assert(names.subrange(0, i as int) =~= names);
    value
}

/// Finds the block template that belongs to the entry `name`: the first
/// whose name with an `s` behind it is `name`.
pub fn find_template<'a>(templates: &'a Vec<BlockTemplate>, name: &[char]) -> (found: Option<
    &'a BlockTemplate,
>)
    ensures
        match found {
            Some(template) => template_fields(templates_view(templates@), name@)
                == template@.fields,
            None => template_fields(templates_view(templates@), name@) == Seq::<
                Seq<char>,
            >::empty(),
        },
{
    let ghost views = templates_view(templates@);
    let mut i: usize = 0;
    while i < templates.len()
        invariant
            i <= templates@.len(),
            views == templates_view(templates@),
            forall|j: int| 0 <= j < i ==> (#[trigger] views[j]).name.push('s') != name@,
        decreases templates@.len() - i,
    {
        let mut plural = chars_of(templates[i].name.as_str());
        plural.push('s');
        if chars_equal(plural.as_slice(), name) {
            assert(is_template_for(views, name@, i as int));
            return Some(&templates[i]);
        }
        i += 1;
    }
    assert forall|at: int| !is_template_for(views, name@, at) by {
        if 0 <= at < views.len() {
            assert(views[at].name.push('s') != name@);
        }
    }
    None
}

fn unwrap_or_zero(value: Option<u64>) -> (number: u64)
    ensures
        number == or_zero(value),
{
    match value {
        Some(number) => number,
        None => 0,
    }
}

/// Reads the words that a block stands for.
pub fn read_block(block: &Element, params: &Params, fields: &Vec<String>, store: &DeviceMap) -> (words:
    Vec<Word>)
    ensures
        words@ == block_words(block@, params@, names_view(fields@), store@),
{
    let start = unwrap_or_zero(find_block_value(Role::Start, block, params, fields));
    let device = unwrap_or_zero(find_block_value(Role::Device, block, params, fields));
    let count = unwrap_or_zero(find_block_value(Role::Count, block, params, fields));
    let code: u8 = if device <= 255 {
        device as u8
    } else {
        0
    };
    store.read_at(
        DeviceKey::from_code(code),
        #[verifier::truncate]
        (start as usize),
        #[verifier::truncate]
        (count as usize),
    )
}

fn flag_bit_from(flags: &[bool], base: usize, offset: usize) -> (bit: u8)
    requires
        base < flags@.len(),
    ensures
        bit == flag_at(flags@, base + offset),
{
    if flags.len() - base > offset && flags[base + offset] {
        1
    } else {
        0
    }
}

fn pack_byte(flags: &[bool], k: usize, lsb_first: bool) -> (byte: u8)
    requires
        8 * k < flags@.len(),
    ensures
        byte == packed_byte(flags@, k as int, lsb_first),
{
    let total: usize = flags.len();
    let base: usize = 8 * k;
    let b0 = flag_bit_from(flags, base, 0);
    let b1 = flag_bit_from(flags, base, 1);
    let b2 = flag_bit_from(flags, base, 2);
    let b3 = flag_bit_from(flags, base, 3);
    let b4 = flag_bit_from(flags, base, 4);
    let b5 = flag_bit_from(flags, base, 5);
    let b6 = flag_bit_from(flags, base, 6);
    let b7 = flag_bit_from(flags, base, 7);
    if lsb_first {
        b0 + 2 * b1 + 4 * b2 + 8 * b3 + 16 * b4 + 32 * b5 + 64 * b6 + 128 * b7
    } else {
        128 * b0 + 64 * b1 + 32 * b2 + 16 * b3 + 8 * b4 + 4 * b5 + 2 * b6 + b7
    }
}

/// Appends flags to `out`, eight to a byte.
pub fn encode_bits_packed(out: &mut Vec<u8>, flags: &[bool], lsb_first: bool)
    ensures
        final(out)@ == old(out)@ + bits_packed(flags@, lsb_first),
{
    let ghost packed = bits_packed(flags@, lsb_first);
    let total: usize = flags.len();
    let count: usize = if total % 8 == 0 {
        total / 8
    } else {
        total / 8 + 1
    };
    assert(count == (total + 7) / 8);
    let mut k: usize = 0;
    while k < count
        invariant
            k <= count,
            total == flags@.len(),
            count == (total + 7) / 8,
            packed == bits_packed(flags@, lsb_first),
            out@ == old(out)@ + packed.subrange(0, k as int),
        decreases count - k,
    {
        let byte = pack_byte(flags, k, lsb_first);
        out.push(byte);
        assert(out@ =~= old(out)@ + packed.subrange(0, k + 1));
        k += 1;
    }
    assert(packed.subrange(0, k as int) =~= packed);
}

fn words_to_flags(words: &[Word]) -> (flags: Vec<bool>)
    ensures
        flags@ == word_flags(words@),
{
    let mut flags: Vec<bool> = Vec::new();
    let mut i: usize = 0;
    while i < words.len()
        invariant
            i <= words@.len(),
            flags@.len() == i,
            forall|j: int| 0 <= j < i ==> flags@[j] == (words@[j] != 0),
        decreases words@.len() - i,
    {
        flags.push(words[i] != 0);
        i += 1;
    }
    assert(flags@ =~= word_flags(words@));
    flags
}

fn collect_numbers(values: &Vec<Element>) -> (numbers: Vec<u64>)
    ensures
        numbers@ == value_numbers(elements_view(values@)),
{
    let ghost views = elements_view(values@);
    let mut numbers: Vec<u64> = Vec::new();
    assert(views.subrange(0, 0) =~= Seq::<ElementView>::empty());
    let mut i: usize = 0;
    while i < values.len()
        invariant
            i <= values@.len(),
            views == elements_view(values@),
            numbers@ == value_numbers(views.subrange(0, i as int)),
        decreases values@.len() - i,
    {
        assert(views.subrange(0, i + 1).drop_last() =~= views.subrange(0, i as int));
        assert(views.subrange(0, i + 1).last() == values@[i as int]@);
        match values[i].as_u64() {
            Some(number) => numbers.push(number),
            None => {},
        }
        i += 1;
    }
    assert(views.subrange(0, i as int) =~= views);
    numbers
}

fn collect_words(values: &Vec<Element>) -> (words: Vec<Word>)
    ensures
        words@ == value_words(elements_view(values@)),
{
    let numbers = collect_numbers(values);
    let mut words: Vec<Word> = Vec::new();
    let mut i: usize = 0;
    while i < numbers.len()
        invariant
            i <= numbers@.len(),
            words@.len() == i,
            forall|j: int| 0 <= j < i ==> words@[j] == clip_word(numbers@[j]),
        decreases numbers@.len() - i,
    {
        let number: u64 = numbers[i];
        words.push(
            if number <= 0xFFFF {
                number as u16
            } else {
                0
            },
        );
        i += 1;
    }
    assert(words@ =~= value_words(elements_view(values@)));
    words
}

fn collect_bytes(out: &mut Vec<u8>, values: &Vec<Element>)
    ensures
        final(out)@ == old(out)@ + value_bytes(elements_view(values@)),
{
    let numbers = collect_numbers(values);
    let ghost bytes = value_bytes(elements_view(values@));
    let mut i: usize = 0;
    while i < numbers.len()
        invariant
            i <= numbers@.len(),
            bytes.len() == numbers@.len(),
            forall|j: int| 0 <= j < bytes.len() ==> bytes[j] == clip_byte(numbers@[j]),
            out@ == old(out)@ + bytes.subrange(0, i as int),
        decreases numbers@.len() - i,
    {
        let number: u64 = numbers[i];
        out.push(
            if number <= 0xFF {
                number as u8
            } else {
                0
            },
        );
        assert(out@ =~= old(out)@ + bytes.subrange(0, i + 1));
        i += 1;
    }
    assert(bytes.subrange(0, i as int) =~= bytes);
}

fn collect_flags(values: &Vec<Element>) -> (flags: Vec<bool>)
    ensures
        flags@ == value_flags(elements_view(values@)),
{
    let mut flags: Vec<bool> = Vec::new();
    let mut i: usize = 0;
    while i < values.len()
        invariant
            i <= values@.len(),
            flags@.len() == i,
            forall|j: int| 0 <= j < i ==> flags@[j] == element_flag(values@[j]@),
        decreases values@.len() - i,
    {
        flags.push(values[i].as_flag());
        i += 1;
    }
    assert(flags@ =~= value_flags(elements_view(values@)));
    flags
}

fn flags_to_words(flags: &[bool]) -> (words: Vec<Word>)
    ensures
        words@ == flag_words(flags@),
{
    let mut words: Vec<Word> = Vec::new();
    let mut i: usize = 0;
    while i < flags.len()
        invariant
            i <= flags@.len(),
            words@.len() == i,
            forall|j: int|
                0 <= j < i ==> words@[j] == if flags@[j] {
                    1u16
                } else {
                    0u16
                },
        decreases flags@.len() - i,
    {
        words.push(
            if flags[i] {
                1
            } else {
                0
            },
        );
        i += 1;
    }
    assert(words@ =~= flag_words(flags@));
    words
}

fn request_word_order(fields: &Vec<FieldSpec>, name: &[char]) -> (little_endian: bool)
    ensures
        little_endian == word_order(field_specs_view(fields@), name@),
{
    let ghost views = field_specs_view(fields@);
    let mut little_endian = true;
    assert(views.subrange(0, 0) =~= Seq::<FieldView>::empty());
    let mut i: usize = 0;
    while i < fields.len()
        invariant
            i <= fields@.len(),
            views == field_specs_view(fields@),
            little_endian == word_order(views.subrange(0, i as int), name@),
        decreases fields@.len() - i,
    {
        assert(views.subrange(0, i + 1).drop_last() =~= views.subrange(0, i as int));
        assert(views.subrange(0, i + 1).last() == fields@[i as int]@);
        let field_name = chars_of(fields[i].name.as_str());
        if chars_equal(field_name.as_slice(), name) {
            match fields[i].kind {
                FieldKind::Words { le } => {
                    little_endian = le;
                },
                _ => {},
            }
        }
        i += 1;
    }
    assert(views.subrange(0, i as int) =~= views);
    little_endian
}

fn find_entry_values<'a>(params: &'a Params, name: &[char]) -> (found: Option<&'a Vec<Element>>)
    ensures
        match found {
            Some(values) => find_values(params@, name@) == Some(elements_view(values@)),
            None => find_values(params@, name@) is None,
        },
{
    match params.array(name) {
        Some(values) => Some(values),
        None => {
            if name.len() > 0 && name[name.len() - 1] == 's' {
                let singular = vstd::slice::slice_subrange(name, 0, name.len() - 1);
                assert(singular@ =~= name@.drop_last());
                params.array(singular)
            } else {
                let mut plural: Vec<char> = Vec::new();
                let mut i: usize = 0;
                while i < name.len()
                    invariant
                        i <= name@.len(),
                        plural@ == name@.subrange(0, i as int),
                    decreases name@.len() - i,
                {
                    plural.push(name[i]);
                    assert(plural@ =~= name@.subrange(0, i + 1));
                    i += 1;
                }
                plural.push('s');
                assert(plural@ =~= name@.push('s'));
                params.array(plural.as_slice())
            }
        },
    }
}

fn render_words(entry: &ResponseEntry, words: &[Word], out: &mut Vec<u8>)
    ensures
        final(out)@ == old(out)@ + render(entry@, words@),
{
    match entry {
        ResponseEntry::BlockWords { name: _, le } => {
            encode_words(out, words, *le);
        },
        ResponseEntry::BlockBitsPacked { name: _, lsb_first } => {
            let flags = words_to_flags(words);
            encode_bits_packed(out, flags.as_slice(), *lsb_first);
        },
        ResponseEntry::BlockNibbles { name: _, high_first } => {
            encode_nibbles(out, words, *high_first);
        },
        ResponseEntry::AsciiHex { name: _ } => {
            assert(out@ =~= old(out)@ + Seq::<u8>::empty());
        },
    }
}

fn render_blocks(
    entry: &ResponseEntry,
    blocks: &Vec<Element>,
    params: &Params,
    fields: &Vec<String>,
    store: &DeviceMap,
    out: &mut Vec<u8>,
)
    ensures
        final(out)@ == old(out)@ + blocks_output(
            entry@,
            elements_view(blocks@),
            params@,
            names_view(fields@),
            store@,
        ),
{
    let ghost views = elements_view(blocks@);
    let ghost names = names_view(fields@);
    assert(views.subrange(0, 0) =~= Seq::<ElementView>::empty());
    assert(out@ =~= old(out)@ + Seq::<u8>::empty());
    let mut i: usize = 0;
    while i < blocks.len()
        invariant
            i <= blocks@.len(),
            views == elements_view(blocks@),
            names == names_view(fields@),
            out@ == old(out)@ + blocks_output(
                entry@,
                views.subrange(0, i as int),
                params@,
                names,
                store@,
            ),
        decreases blocks@.len() - i,
    {
        assert(views.subrange(0, i + 1).drop_last() =~= views.subrange(0, i as int));
        assert(views.subrange(0, i + 1).last() == blocks@[i as int]@);
        let ghost before = out@;
        let words = read_block(&blocks[i], params, fields, store);
        render_words(entry, words.as_slice(), out);
        assert(out@ =~= old(out)@ + (blocks_output(
            entry@,
            views.subrange(0, i as int),
            params@,
            names,
            store@,
        ) + render(entry@, words@)));
        i += 1;
    }
    assert(views.subrange(0, i as int) =~= views);
}

fn render_values(
    entry: &ResponseEntry,
    values: &Vec<Element>,
    request_fields: &Vec<FieldSpec>,
    out: &mut Vec<u8>,
)
    ensures
        final(out)@ == old(out)@ + values_output(
            entry@,
            elements_view(values@),
            field_specs_view(request_fields@),
        ),
{
    match entry {
        ResponseEntry::BlockWords { name, le: _ } => {
            let key = chars_of(name.as_str());
            let little_endian = request_word_order(request_fields, key.as_slice());
            let words = collect_words(values);
            encode_words(out, words.as_slice(), little_endian);
        },
        ResponseEntry::BlockBitsPacked { name: _, lsb_first } => {
            let flags = collect_flags(values);
            encode_bits_packed(out, flags.as_slice(), *lsb_first);
        },
        ResponseEntry::BlockNibbles { name: _, high_first } => {
            let flags = collect_flags(values);
            let words = flags_to_words(flags.as_slice());
            encode_nibbles(out, words.as_slice(), *high_first);
        },
        ResponseEntry::AsciiHex { name: _ } => {
            assert(out@ =~= old(out)@ + Seq::<u8>::empty());
        },
    }
}

fn render_ascii(params: &Params, name: &[char], out: &mut Vec<u8>) -> (done: Result<
    (),
    HandlerError,
>)
    ensures
        match ascii_output(params@, name@) {
            Ok(bytes) => done is Ok && final(out)@ == old(out)@ + bytes,
            Err(error) => done == Err::<(), HandlerError>(error),
        },
{
    match params.get(name) {
        Some(Param::Value(Scalar::Text(text))) => {
            let chars = chars_of(text.as_str());
            assert(out@ =~= old(out)@ + ascii_bytes(chars@).subrange(0, 0));
            let mut i: usize = 0;
            while i < chars.len()
                invariant
                    i <= chars@.len(),
                    chars@ == text@,
                    member(params@, name@) == Some(ParamView::Value(ScalarView::Text(text@))),
                    forall|j: int| 0 <= j < i ==> is_hex_char(#[trigger] chars@[j]),
                    out@ == old(out)@ + ascii_bytes(chars@).subrange(0, i as int),
                decreases chars@.len() - i,
            {
                let c: char = chars[i];
                let code: u32 = c as u32;
                let ok = (0x30 <= code && code <= 0x39) || (0x41 <= code && code <= 0x46) || (0x61
                    <= code && code <= 0x66);
                if !ok {
                    assert(!is_hex_char(chars@[i as int]));
                    return Err(HandlerError::AsciiHexBadChar);
                }
                let byte: u8 = code as u8;
                out.push(byte);
                assert(ascii_bytes(chars@)[i as int] == byte);
                assert(out@ =~= old(out)@ + ascii_bytes(chars@).subrange(0, i + 1));
                i += 1;
            }
            assert(ascii_bytes(chars@).subrange(0, i as int) =~= ascii_bytes(chars@));
            Ok(())
        },
        Some(Param::Array(values)) => {
            collect_bytes(out, values);
            Ok(())
        },
        _ => {
            assert(out@ =~= old(out)@ + Seq::<u8>::empty());
            Ok(())
        },
    }
}

fn entry_name(entry: &ResponseEntry) -> (name: Vec<char>)
    ensures
        name@ == entry@.name(),
{
    match entry {
        ResponseEntry::BlockWords { name, le: _ } => chars_of(name.as_str()),
        ResponseEntry::BlockBitsPacked { name, lsb_first: _ } => chars_of(name.as_str()),
        ResponseEntry::BlockNibbles { name, high_first: _ } => chars_of(name.as_str()),
        ResponseEntry::AsciiHex { name } => chars_of(name.as_str()),
    }
}

fn render_entry(
    entry: &ResponseEntry,
    descriptor: &CommandDescriptor,
    params: &Params,
    store: &DeviceMap,
    out: &mut Vec<u8>,
) -> (done: Result<(), HandlerError>)
    ensures
        match entry_output(entry@, descriptor@, params@, store@) {
            Ok(bytes) => done is Ok && final(out)@ == old(out)@ + bytes,
            Err(error) => done == Err::<(), HandlerError>(error),
        },
{
    let name = entry_name(entry);
    match entry {
        ResponseEntry::AsciiHex { name: _ } => render_ascii(params, name.as_slice(), out),
        _ => {
            let no_fields: Vec<String> = Vec::new();
            assert(names_view(no_fields@) =~= Seq::<Seq<char>>::empty());
            let blocks = params.array(name.as_slice());
            let has_blocks = match blocks {
                Some(found) => found.len() > 0,
                None => false,
            };
            if has_blocks {
                let template = find_template(&descriptor.block_templates, name.as_slice());
                let fields: &Vec<String> = match template {
                    Some(found) => &found.fields,
                    None => &no_fields,
                };
                match blocks {
                    Some(found) => render_blocks(entry, found, params, fields, store, out),
                    None => {},
                }
            } else {
                match find_entry_values(params, name.as_slice()) {
                    Some(values) => render_values(entry, values, &descriptor.request_fields, out),
                    None => {
                        assert(out@ =~= old(out)@ + Seq::<u8>::empty());
                    },
                }
            }
            Ok(())
        },
    }
}

/// Builds the response payload of a command from its descriptor, the request
/// parameters and the store: the bytes of the descriptor's response entries
/// in their order, or the first error among them. The store is only read.
pub fn build_response(descriptor: &CommandDescriptor, params: &Params, store: &DeviceMap) -> (payload:
    Result<Vec<u8>, HandlerError>)
    ensures
        match response_of(descriptor@, params@, store@) {
            Ok(bytes) => payload matches Ok(out) && out@ == bytes,
            Err(error) => payload == Err::<Vec<u8>, HandlerError>(error),
        },
{
    let mut out: Vec<u8> = Vec::new();
    let mut i: usize = 0;
    while i < descriptor.response_entries.len()
        invariant
            i <= descriptor.response_entries@.len(),
            response_upto(descriptor@, params@, store@, i as int) == Ok::<
                Seq<u8>,
                HandlerError,
            >(out@),
        decreases descriptor.response_entries@.len() - i,
    {
        assert(descriptor@.response_entries[i as int] == descriptor.response_entries@[i as int]@);
        match render_entry(&descriptor.response_entries[i], descriptor, params, store, &mut out) {
            Ok(()) => {},
            Err(error) => {
                proof {
                    lemma_response_error_stays(
                        descriptor@,
                        params@,
                        store@,
                        i + 1,
                        descriptor.response_entries@.len() as int,
                    );
                }
                return Err(error);
            },
        }
        i += 1;
    }
    Ok(out)
}

/// Once an entry has failed, the response fails with that error however
/// many entries follow.
proof fn lemma_response_error_stays(
    descriptor: CommandView,
    params: ParamsView,
    areas: Areas,
    failed: int,
    upto: int,
)
    requires
        0 <= failed <= upto,
        response_upto(descriptor, params, areas, failed) is Err,
    ensures
        response_upto(descriptor, params, areas, upto) == response_upto(
            descriptor,
            params,
            areas,
            failed,
        ),
    decreases upto - failed,
{
    if failed < upto {
        lemma_response_error_stays(descriptor, params, areas, failed, upto - 1);
    }
}

/// Whether the fields of a block are as before, but that the first
/// `device_code`, where it was a text, may have become a number.
pub open spec fn block_resolved(
    before: Seq<(Seq<char>, ScalarView)>,
    after: Seq<(Seq<char>, ScalarView)>,
) -> bool {
    after.len() == before.len() && forall|k: int|
        0 <= k < before.len() ==> (#[trigger] after[k]).0 == before[k].0 && (after[k].1
            == before[k].1 || (is_first_named(before, "device_code"@, k) && before[k].1 is Text
            && after[k].1 is Number))
}

/// Whether an array element is as before, up to the device code of a block.
pub open spec fn element_resolved(before: ElementView, after: ElementView) -> bool {
    match before {
        ElementView::Block(fields) => after matches ElementView::Block(others)
            && block_resolved(fields, others),
        ElementView::Value(_) => after == before,
    }
}

/// Whether a member's value is as before, up to the device codes of blocks.
pub open spec fn param_resolved(before: ParamView, after: ParamView) -> bool {
    match before {
        ParamView::Array(elements) => after matches ParamView::Array(others) && others.len()
            == elements.len() && forall|j: int|
            0 <= j < elements.len() ==> element_resolved(elements[j], #[trigger] others[j]),
        _ => after == before,
    }
}

/// Whether parameters are as before, but that device codes which blocks give
/// as a text (a symbol, a symbol with an address, or a hex literal) may have
/// been replaced by the numeric code that the text stands for.
pub open spec fn texts_resolved(before: ParamsView, after: ParamsView) -> bool {
    match before {
        ParamsView::Object(members) => after matches ParamsView::Object(others) && others.len()
            == members.len() && forall|i: int|
            0 <= i < members.len() ==> (#[trigger] others[i]).0 == members[i].0
                && param_resolved(members[i].1, others[i].1),
        ParamsView::Other => after == before,
    }
}

/// The value of a text that is a hex literal: `0x` or `0X` and a
/// hexadecimal number of at most 64 bits.
pub open spec fn hex_literal(text: Seq<char>) -> Option<u64> {
    if text.len() >= 2 && text[0] == '0' && (text[1] == 'x' || text[1] == 'X') {
        parse_number(text.skip(2), 16, u64::MAX)
    } else {
        None
    }
}

/// The device code that a text stands for: that of the device with this
/// symbol, else that of the device of this combined key, else the value of
/// a hex literal. The devices are asked of the device tables of the process,
/// so the contract says what holds whatever they answer, and is exact for a
/// text that can name no device: there the literal alone decides.
pub fn device_text_code(text: &str) -> (code: Option<u64>)
    ensures
        exists|symbol: Option<u8>, combined: Option<u8>|
            code == #[trigger] text_code(symbol, combined, text@),
        crate::device_key::names_no_device(text@) ==> code == hex_literal(text@),
{
    let symbol: Option<u8> = match melsec_mc::device::device_by_symbol(text) {
        Some(device) => Some(device.device_code_q()),
        None => None,
    };
    let combined: Option<u8> = if symbol.is_none() {
        match melsec_mc::device::parse_device_and_address(text) {
            Ok((device, _)) => Some(device.device_code_q()),
            Err(_) => None,
        }
    } else {
        None
    };
    let code = text_code_with(symbol, combined, text);
    assert(code == text_code(symbol, combined, text@));
    code
}

/// The device code that a text stands for, given what the device tables say
/// of it: the code of the device with this symbol, else the code of the
/// device of this combined key, else the value of the text as a hex literal.
pub open spec fn text_code(symbol: Option<u8>, combined: Option<u8>, text: Seq<char>) -> Option<
    u64,
> {
    match symbol {
        Some(code) => Some(code as u64),
        None => match combined {
            Some(code) => Some(code as u64),
            None => hex_literal(text),
        },
    }
}

/// Decides the device code of a text from what the device tables said.
pub fn text_code_with(symbol: Option<u8>, combined: Option<u8>, text: &str) -> (code: Option<u64>)
    ensures
        code == text_code(symbol, combined, text@),
{
    match symbol {
        Some(code) => {
            return Some(code as u64);
        },
        None => {},
    }
    match combined {
        Some(code) => {
            return Some(code as u64);
        },
        None => {},
    }
    let chars = chars_of(text);
    if chars.len() >= 2 && chars[0] == '0' && (chars[1] == 'x' || chars[1] == 'X') {
        let digits = vstd::slice::slice_subrange(chars.as_slice(), 2, chars.len());
        assert(digits@ =~= text@.skip(2));
        parse_number_text(digits, true, u64::MAX)
    } else {
        None
    }
}

fn copy_scalar(value: &Scalar) -> (copy: Scalar)
    ensures
        copy@ == value@,
{
    match value {
        Scalar::Bool(flag) => Scalar::Bool(*flag),
        Scalar::Number(number) => Scalar::Number(*number),
        Scalar::Text(text) => Scalar::Text(text.clone()),
        Scalar::Other => Scalar::Other,
    }
}

fn resolve_fields(fields: &Vec<Field>) -> (out: Vec<Field>)
    ensures
        block_resolved(fields_view(fields@), fields_view(out@)),
{
    let ghost before = fields_view(fields@);
    let key = chars_of("device_code");
    let mut out: Vec<Field> = Vec::new();
    let mut seen = false;
    let mut i: usize = 0;
    while i < fields.len()
        invariant
            i <= fields@.len(),
            before == fields_view(fields@),
            key@ == "device_code"@,
            out@.len() == i,
            !seen ==> forall|j: int| 0 <= j < i ==> (#[trigger] before[j]).0 != key@,
            forall|k: int|
                0 <= k < i ==> (#[trigger] fields_view(out@)[k]).0 == before[k].0 && (fields_view(
                    out@,
                )[k].1 == before[k].1 || (is_first_named(before, key@, k) && before[k].1 is Text
                    && fields_view(out@)[k].1 is Number)),
        decreases fields@.len() - i,
    {
        let ghost done = fields_view(out@);
        let name = chars_of(fields[i].name.as_str());
        let first = !seen && chars_equal(name.as_slice(), key.as_slice());
        let mut value = copy_scalar(&fields[i].value);
        if first {
            seen = true;
            assert(is_first_named(before, key@, i as int));
            match &fields[i].value {
                Scalar::Text(text) => {
                    match device_text_code(text.as_str()) {
                        Some(code) => {
                            value = Scalar::Number(code);
                        },
                        None => {},
                    }
                },
                _ => {},
            }
        }
        out.push(Field { name: fields[i].name.clone(), value });
        assert forall|k: int| 0 <= k < i + 1 implies (#[trigger] fields_view(out@)[k]).0
            == before[k].0 && (fields_view(out@)[k].1 == before[k].1 || (is_first_named(
            before,
            key@,
            k,
        ) && before[k].1 is Text && fields_view(out@)[k].1 is Number)) by {
            if k < i {
                assert(fields_view(out@)[k] == done[k]);
            }
        }
        i += 1;
    }
    out
}

fn resolve_elements(elements: &Vec<Element>) -> (out: Vec<Element>)
    ensures
        out@.len() == elements@.len(),
        forall|j: int|
            0 <= j < elements@.len() ==> element_resolved(
                elements_view(elements@)[j],
                #[trigger] elements_view(out@)[j],
            ),
{
    let mut out: Vec<Element> = Vec::new();
    let mut i: usize = 0;
    while i < elements.len()
        invariant
            i <= elements@.len(),
            out@.len() == i,
            forall|j: int|
                0 <= j < i ==> element_resolved(
                    elements_view(elements@)[j],
                    #[trigger] elements_view(out@)[j],
                ),
        decreases elements@.len() - i,
    {
        let ghost done = elements_view(out@);
        let element = match &elements[i] {
            Element::Value(value) => Element::Value(copy_scalar(value)),
            Element::Block(fields) => Element::Block(resolve_fields(fields)),
        };
        assert(element_resolved(elements@[i as int]@, element@));
        out.push(element);
        assert forall|j: int| 0 <= j < i + 1 implies element_resolved(
            elements_view(elements@)[j],
            #[trigger] elements_view(out@)[j],
        ) by {
            if j < i {
                assert(elements_view(out@)[j] == done[j]);
            }
        }
        i += 1;
    }
    out
}

/// Replaces the device codes that blocks give as a text by the numeric code
/// that the text stands for, where the device tables know one.
pub fn resolve_device_texts(params: &Params) -> (resolved: Params)
    ensures
        texts_resolved(params@, resolved@),
{
    match params {
        Params::Other => Params::Other,
        Params::Object(members) => {
            let mut out: Vec<Member> = Vec::new();
            let mut i: usize = 0;
            while i < members.len()
                invariant
                    i <= members@.len(),
                    out@.len() == i,
                    forall|j: int|
                        0 <= j < i ==> (#[trigger] members_view(out@)[j]).0 == members_view(
                            members@,
                        )[j].0 && param_resolved(
                            members_view(members@)[j].1,
                            members_view(out@)[j].1,
                        ),
                decreases members@.len() - i,
            {
                let ghost done = members_view(out@);
                let value = match &members[i].value {
                    Param::Value(value) => Param::Value(copy_scalar(value)),
                    Param::Array(elements) => Param::Array(resolve_elements(elements)),
                    Param::Other => Param::Other,
                };
                assert(param_resolved(members@[i as int].value@, value@));
                out.push(Member { name: members[i].name.clone(), value });
                assert forall|j: int| 0 <= j < i + 1 implies (#[trigger] members_view(out@)[j]).0
                    == members_view(members@)[j].0 && param_resolved(
                    members_view(members@)[j].1,
                    members_view(out@)[j].1,
                ) by {
                    if j < i {
                        assert(members_view(out@)[j] == done[j]);
                    }
                }
                i += 1;
            }
            Params::Object(out)
        },
    }
}

/// Builds the response payload of a command from its descriptor, the request
/// parameters and the store. Device codes that blocks give as a text are
/// first resolved against the device tables of the process, which are not
/// part of this library: the contract says what holds however they resolve.
/// Parameters without such texts are rendered as they are.
pub fn build_response_from_spec(spec: &CommandDescriptor, params: &Params, store: &DeviceMap) -> (payload:
    Result<Vec<u8>, HandlerError>)
    ensures
        exists|resolved: ParamsView|
            texts_resolved(params@, resolved) && match #[trigger] response_of(
                spec@,
                resolved,
                store@,
            ) {
                Ok(bytes) => payload matches Ok(out) && out@ == bytes,
                Err(error) => payload == Err::<Vec<u8>, HandlerError>(error),
            },
{
    let resolved = resolve_device_texts(params);
    build_response(spec, &resolved, store)
}

} // verus!
