//! Device keys as callers write them ("D", "D100", "0xA8", "168") and their
//! resolution to a numeric device code and an effective address.

use crate::text::{all_digits, chars_of, digit_value, digits_value, parse_number, parse_number_text};
use vstd::prelude::*;
use vstd::slice::slice_subrange;
use vstd::string::*;

verus! {

/// `melsec_mc::device::Device`, an entry of the device table. It is only
/// handed on to [`melsec_mc::device::Device::device_code_q`].
#[verifier::external_type_specification]
#[verifier::external_body]
pub struct ExDevice(melsec_mc::device::Device);

/// `melsec_mc::error::MelsecError`, the error of the `melsec_mc` functions.
/// Nothing is read of it.
#[verifier::external_type_specification]
#[verifier::external_body]
pub struct ExMelsecError(melsec_mc::error::MelsecError);

/// `melsec_mc::device::device_by_symbol` looks a bare symbol up in the device
/// table of the running process. Which devices the table holds is not
/// claimed: a file beside the executable may replace it. The one claim, for
/// the reason given at [`names_no_device`]: such a text is no symbol of it.
pub assume_specification[ melsec_mc::device::device_by_symbol ](sym: &str) -> (device: Option<
    &'static melsec_mc::device::Device,
>)
    ensures
        names_no_device(sym@) ==> device is None,
;

/// `melsec_mc::device::parse_device_and_address` splits a combined key into a
/// device of the running process's table and an address. Two claims: an
/// accepted address fits in three bytes, as the function rejects any larger;
/// and a text that [`names_no_device`] is rejected.
pub assume_specification[ melsec_mc::device::parse_device_and_address ](s: &str) -> (parsed: Result<
    (&'static melsec_mc::device::Device, u32),
    melsec_mc::error::MelsecError,
>)
    ensures
        parsed matches Ok((_, address)) ==> address <= 0xFF_FFFF,
        names_no_device(s@) ==> parsed is Err,
;

/// `Device::device_code_q` gives the one-byte code of a device. Nothing is
/// claimed of its value.
pub assume_specification[ melsec_mc::device::Device::device_code_q ](
    device: &melsec_mc::device::Device,
) -> (code: u8)
;

/// `DeviceRegistry::get_override_by_symbol` consults the overrides that the
/// embedding program registered; this hands back the code of the override, if
/// there is one. Nothing is claimed of the outcome.
#[verifier::external_body]
fn override_code(symbol: &str) -> (code: Option<u32>) {
    melsec_mc::device_registry::DeviceRegistry::get_override_by_symbol(symbol).map(|found| found.code)
}

/// What the device tables of the running process say about one key.
#[derive(Debug, Clone, Copy)]
pub struct KeyLookup {
    /// The code of a registered override for the key taken as a symbol.
    pub override_code: Option<u32>,
    /// Device code and address, where the key reads as symbol plus address.
    pub combined: Option<(u8, u32)>,
    /// The device code, where the key is a bare device symbol.
    pub symbol: Option<u8>,
}

impl KeyLookup {
    /// What the tables can say at all: a combined key carries an address of
    /// at most three bytes.
    pub open spec fn plausible(self) -> bool {
        match self.combined {
            Some((_, address)) => address <= 0xFF_FFFF,
            None => true,
        }
    }

    /// What the tables can say of `key`: nothing of a key that can name no
    /// device, neither as a combined key nor as a symbol.
    pub open spec fn answers(self, key: Seq<char>) -> bool {
        self.plausible() && (names_no_device(key) ==> self.combined is None
            && self.symbol is None)
    }

    /// The outcome when no table knows the key.
    pub open spec fn absent() -> KeyLookup {
        KeyLookup { override_code: None, combined: None, symbol: None }
    }
}

/// The device code that a key denotes as a literal: hexadecimal after `0x`,
/// else decimal, and code 0 for anything that is neither.
pub open spec fn literal_code(key: Seq<char>) -> u8 {
    let parsed = if has_hex_prefix(key) {
        parse_number(key.skip(2), 16, 255)
    } else {
        parse_number(key, 10, 255)
    };
    match parsed {
        Some(code) => code as u8,
        None => 0,
    }
}

/// The code and effective address of a key, by precedence: a registered
/// override whose code fits in a byte; the key read as symbol plus address,
/// where the explicit address wins unless it is zero; the key as a bare
/// symbol; the key as a literal.
pub open spec fn resolve(lookup: KeyLookup, key: Seq<char>, addr: usize) -> (u8, usize) {
    match lookup.override_code {
        Some(code) if code <= 255 => (code as u8, addr),
        _ => match lookup.combined {
            Some((code, parsed)) if key.len() > 0 => (
                code,
                if addr == 0 {
                    parsed as usize
                } else {
                    addr
                },
            ),
            _ => match lookup.symbol {
                Some(code) => (code, addr),
                None => (literal_code(key), addr),
            },
        },
    }
}

/// The device code that a key denotes as a literal.
pub fn literal_key_code(key: &[char]) -> (code: u8)
    ensures
        code == literal_code(key@),
{
    let parsed = if key.len() >= 2 && key[0] == '0' && (key[1] == 'x' || key[1] == 'X') {
        let rest = slice_subrange(key, 2, key.len());
        assert(rest@ =~= key@.skip(2));
        parse_number_text(rest, true, 255)
    } else {
        parse_number_text(key, false, 255)
    };
    match parsed {
        Some(code) => code as u8,
        None => 0,
    }
}

/// Asks the device tables about `key`, in the order of precedence and no
/// further than the first table that decides.
pub fn lookup_key(key: &str) -> (lookup: KeyLookup)
    ensures
        lookup.answers(key@),
        lookup.override_code matches Some(code) && code <= 255 ==> lookup.combined is None
            && lookup.symbol is None,
        lookup.combined is Some ==> lookup.symbol is None && key@.len() > 0,
{
    let override_code = override_code(key);
    let decided = match override_code {
        Some(code) => code <= 255,
        None => false,
    };
    let mut combined: Option<(u8, u32)> = None;
    let mut symbol: Option<u8> = None;
    if !decided {
        if !key.is_empty() {
            match melsec_mc::device::parse_device_and_address(key) {
                Ok((device, address)) => {
                    combined = Some((device.device_code_q(), address));
                },
                Err(_) => {},
            }
        }
        if combined.is_none() {
            match melsec_mc::device::device_by_symbol(key) {
                Some(device) => {
                    symbol = Some(device.device_code_q());
                },
                None => {},
            }
        }
    }
    KeyLookup { override_code, combined, symbol }
}

/// Decides code and effective address of `key` from what the tables said.
pub fn resolve_with(lookup: &KeyLookup, key: &str, addr: usize) -> (resolved: (u8, usize))
    ensures
        resolved == resolve(*lookup, key@, addr),
{
    match lookup.override_code {
        Some(code) => {
            if code <= 255 {
                return (code as u8, addr);
            }
        },
        None => {},
    }
    let chars = chars_of(key);
    match lookup.combined {
        Some((code, parsed)) => {
            if chars.len() > 0 {
                let at: usize = if addr == 0 {
                    parsed as usize
                } else {
                    addr
                };
                return (code, at);
            }
        },
        None => {},
    }
    match lookup.symbol {
        Some(code) => (code, addr),
        None => (literal_key_code(chars.as_slice()), addr),
    }
}

/// Resolves `key` against the device tables of the running process. The
/// tables are not part of this library, so the contract says what holds for
/// whatever they answer.
pub fn resolve_key(key: &str, addr: usize) -> (resolved: (u8, usize))
    ensures
        exists|lookup: KeyLookup|
            lookup.answers(key@) && resolved == #[trigger] resolve(lookup, key@, addr),
        resolved.1 == addr || (addr == 0 && resolved.1 <= 0xFF_FFFF),
        names_no_device(key@) ==> resolved.1 == addr,
{
    let lookup = lookup_key(key);
    resolve_with(&lookup, key, addr)
}

/// The upper-case hexadecimal digit of a value below 16.
pub open spec fn hex_char(nibble: u8) -> char {
    if nibble == 0 {
        '0'
    } else if nibble == 1 {
        '1'
    } else if nibble == 2 {
        '2'
    } else if nibble == 3 {
        '3'
    } else if nibble == 4 {
        '4'
    } else if nibble == 5 {
        '5'
    } else if nibble == 6 {
        '6'
    } else if nibble == 7 {
        '7'
    } else if nibble == 8 {
        '8'
    } else if nibble == 9 {
        '9'
    } else if nibble == 10 {
        'A'
    } else if nibble == 11 {
        'B'
    } else if nibble == 12 {
        'C'
    } else if nibble == 13 {
        'D'
    } else if nibble == 14 {
        'E'
    } else {
        'F'
    }
}

/// The canonical key of a device code: `0x` and two upper-case hex digits.
pub open spec fn canonical_key(code: u8) -> Seq<char> {
    seq!['0', 'x', hex_char(code / 16), hex_char(code % 16)]
}

fn hex_digit_text(nibble: u8) -> (text: &'static str)
    requires
        nibble < 16,
    ensures
        text@ == seq![hex_char(nibble)],
{
    let text = if nibble == 0 {
        proof { reveal_strlit("0"); }
        "0"
    } else if nibble == 1 {
        proof { reveal_strlit("1"); }
        "1"
    } else if nibble == 2 {
        proof { reveal_strlit("2"); }
        "2"
    } else if nibble == 3 {
        proof { reveal_strlit("3"); }
        "3"
    } else if nibble == 4 {
        proof { reveal_strlit("4"); }
        "4"
    } else if nibble == 5 {
        proof { reveal_strlit("5"); }
        "5"
    } else if nibble == 6 {
        proof { reveal_strlit("6"); }
        "6"
    } else if nibble == 7 {
        proof { reveal_strlit("7"); }
        "7"
    } else if nibble == 8 {
        proof { reveal_strlit("8"); }
        "8"
    } else if nibble == 9 {
        proof { reveal_strlit("9"); }
        "9"
    } else if nibble == 10 {
        proof { reveal_strlit("A"); }
        "A"
    } else if nibble == 11 {
        proof { reveal_strlit("B"); }
        "B"
    } else if nibble == 12 {
        proof { reveal_strlit("C"); }
        "C"
    } else if nibble == 13 {
        proof { reveal_strlit("D"); }
        "D"
    } else if nibble == 14 {
        proof { reveal_strlit("E"); }
        "E"
    } else {
        proof { reveal_strlit("F"); }
        "F"
    };
    assert(text@ =~= seq![hex_char(nibble)]);
    text
}

/// Writes the canonical key of a device code.
pub fn canonical_key_text(code: u8) -> (text: String)
    ensures
        text@ == canonical_key(code),
{
    proof { reveal_strlit("0x"); }
    let mut text = String::from_str("0x");
    text.append(hex_digit_text(code / 16));
    text.append(hex_digit_text(code % 16));
    assert(text@ =~= canonical_key(code));
    text
}

/// Normalizes a key as callers write it into the canonical key of its device
/// code and the effective address. For a combined key such as `D100` the
/// address in the key counts only where `addr` is zero.
pub fn normalize_key_addr(key: &str, addr: usize) -> (normal: (String, usize))
    ensures
        exists|lookup: KeyLookup|
            lookup.answers(key@) && normal.0@ == canonical_key(
                (#[trigger] resolve(lookup, key@, addr)).0,
            ) && normal.1 == resolve(lookup, key@, addr).1,
        normal.1 == addr || (addr == 0 && normal.1 <= 0xFF_FFFF),
        names_no_device(key@) ==> normal.1 == addr,
{
    let resolved = resolve_key(key, addr);
    (canonical_key_text(resolved.0), resolved.1)
}

/// The canonical key of a code reads back as that code: where no table
/// claims the literal itself, it resolves to the code it was made from, at
/// the address given.
pub proof fn lemma_canonical_key_resolves(code: u8, addr: usize)
    ensures
        literal_code(canonical_key(code)) == code,
        resolve(KeyLookup::absent(), canonical_key(code), addr) == (code, addr),
{
    let key = canonical_key(code);
    let digits = key.skip(2);
    let high = code / 16;
    let low = code % 16;
    assert(has_hex_prefix(key));
    assert(digits.len() == 2);
    assert(digit_value(digits[0], 16) == Some(high as nat));
    assert(digit_value(digits[1], 16) == Some(low as nat));
    assert(digits.drop_last().drop_last() =~= Seq::<char>::empty());
    assert(digits.drop_last().last() == digits[0]);
    assert(digits_value(digits.drop_last().drop_last(), 16) == 0);
    assert(digits_value(digits.drop_last(), 16) == high as nat);
    assert(digits_value(digits, 16) == (high as nat) * 16 + low as nat);
    assert(all_digits(digits, 16));
}

/// A key that can name no device resolves to an override's code or to its
/// code as a literal, at the address given.
pub proof fn lemma_literal_key_resolves(lookup: KeyLookup, key: Seq<char>, addr: usize)
    requires
        lookup.answers(key),
        names_no_device(key),
    ensures
        resolve(lookup, key, addr) == match lookup.override_code {
            Some(code) if code <= 255 => (code as u8, addr),
            _ => (literal_code(key), addr),
        },
{
}

/// Whether the key starts with `0x` or `0X`.
pub open spec fn has_hex_prefix(key: Seq<char>) -> bool {
    key.len() >= 2 && key[0] == '0' && (key[1] == 'x' || key[1] == 'X')
}

/// Whether a text can name no device, neither as a symbol nor as a symbol
/// with an address: it is empty or begins with a digit. The symbols of the
/// device table are symbols of the list that `melsec_mc` embeds
/// (`devices.toml`) or the word `UNKNOWN`, whatever file replaces the table,
/// and all of those begin with a letter; and the parser of combined keys
/// asks for a letter at the front of the text.
pub open spec fn names_no_device(text: Seq<char>) -> bool {
    text.len() == 0 || 0x30 <= text[0] as u32 <= 0x39
}

} // verus!
