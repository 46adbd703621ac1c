//! The device assignment text that seeds a store: lines of `KEY = VALUE`
//! under a `[devices]` section header, where the value is a number of points
//! with an optional `K` for 1024.

use crate::device_key::{resolve, KeyLookup};
use crate::device_map::{write_words, Areas, DeviceMap, Word};
use crate::text::{chars_of, parse_number, parse_number_text};
use vstd::prelude::*;
use vstd::slice::slice_subrange;
use vstd::string::*;

verus! {

/// One area to seed: the key to write under, and how many zero words.
#[derive(Debug, Clone)]
pub struct Seed {
    pub key: String,
    pub count: usize,
}

/// A seed as contracts see it.
pub struct SeedView {
    pub key: Seq<char>,
    pub count: usize,
}

impl View for Seed {
    type V = SeedView;

    open spec fn view(&self) -> SeedView {
        SeedView { key: self.key@, count: self.count }
    }
}

/// The views of a run of seeds.
pub open spec fn seeds_view(seeds: Seq<Seed>) -> Seq<SeedView> {
    Seq::new(seeds.len(), |i: int| seeds[i]@)
}

/// The largest number of points that an assignment can ask for: what leaves
/// room, in the address space, for the largest address that a key can carry.
pub open spec fn max_points() -> int {
    usize::MAX - 0xFF_FFFF
}

/// Whether a character is white space.
pub open spec fn is_space(c: char) -> bool {
    let code = c as u32;
    (0x09 <= code <= 0x0D) || code == 0x20 || code == 0x85 || code == 0xA0 || code == 0x1680 || (
    0x2000 <= code <= 0x200A) || code == 0x2028 || code == 0x2029 || code == 0x202F || code
        == 0x205F || code == 0x3000
}

/// Whether a character is stripped: a double quote where `quotes`, white
/// space otherwise.
pub open spec fn strips(c: char, quotes: bool) -> bool {
    if quotes {
        c == '"'
    } else {
        is_space(c)
    }
}

/// The text without the stripped characters at its front.
pub open spec fn skip_front(text: Seq<char>, quotes: bool) -> Seq<char>
    decreases text.len(),
{
    if text.len() > 0 && strips(text[0], quotes) {
        skip_front(text.skip(1), quotes)
    } else {
        text
    }
}

/// The text without the stripped characters at its back.
pub open spec fn skip_back(text: Seq<char>, quotes: bool) -> Seq<char>
    decreases text.len(),
{
    if text.len() > 0 && strips(text.last(), quotes) {
        skip_back(text.drop_last(), quotes)
    } else {
        text
    }
}

/// The text without the stripped characters at either end.
pub open spec fn strip(text: Seq<char>, quotes: bool) -> Seq<char> {
    skip_back(skip_front(text, quotes), quotes)
}

/// The index of the first `c` in the text, or the text's length.
pub open spec fn position(text: Seq<char>, c: char) -> nat
    decreases text.len(),
{
    if text.len() == 0 || text[0] == c {
        0
    } else {
        1 + position(text.skip(1), c)
    }
}

/// A character with the ASCII letters in upper case. No other letter is
/// folded.
pub open spec fn fold_upper(c: char) -> u32 {
    if 0x61 <= c as u32 <= 0x7A {
        (c as u32 - 0x20) as u32
    } else {
        c as u32
    }
}

/// Whether the key is the symbol `name`, whatever the case of its ASCII
/// letters. `name` is written in upper case. Only ASCII case is folded: a
/// key with any other character is none of the symbols, whatever that
/// character becomes in upper case.
pub open spec fn same_symbol(key: Seq<char>, name: Seq<char>) -> bool {
    key.len() == name.len() && forall|i: int|
        0 <= i < key.len() ==> fold_upper(#[trigger] key[i]) == name[i] as u32
}

/// A value without the pair of double quotes around it, if it has one.
pub open spec fn unquoted(value: Seq<char>) -> Seq<char> {
    if value.len() >= 2 && value[0] == '"' && value.last() == '"' {
        value.subrange(1, value.len() - 1)
    } else {
        value
    }
}

/// The number of points that a value denotes: a decimal number, times 1024
/// where a `K` or `k` follows it. Values that denote no number, zero, or
/// more than [`max_points`] denote no points.
pub open spec fn points_of(value: Seq<char>) -> Option<usize> {
    if value.len() == 0 {
        None
    } else if value.last() == 'K' || value.last() == 'k' {
        match parse_number(strip(value.drop_last(), false), 10, usize::MAX as u64) {
            Some(number) => if 0 < number * 1024 <= max_points() {
                Some((number * 1024) as usize)
            } else {
                None
            },
            None => None,
        }
    } else {
        match parse_number(value, 10, usize::MAX as u64) {
            Some(number) => if 0 < number <= max_points() {
                Some(number as usize)
            } else {
                None
            },
            None => None,
        }
    }
}

/// The keys to seed for an assigned key: the three sub-units of a timer or
/// counter symbol, told by [`same_symbol`] and so in whatever ASCII case,
/// and the key itself for any other.
pub open spec fn expand(key: Seq<char>) -> Seq<Seq<char>> {
    if same_symbol(key, "T"@) {
        seq!["TS"@, "TN"@, "TC"@]
    } else if same_symbol(key, "LT"@) {
        seq!["LTS"@, "LTN"@, "LTC"@]
    } else if same_symbol(key, "ST"@) {
        seq!["STS"@, "STN"@, "STC"@]
    } else if same_symbol(key, "LST"@) {
        seq!["LSTS"@, "LSTN"@, "LSTC"@]
    } else if same_symbol(key, "C"@) {
        seq!["CTS"@, "CTN"@, "CTC"@]
    } else if same_symbol(key, "LC"@) {
        seq!["LCTS"@, "LCTN"@, "LCTC"@]
    } else {
        seq![key]
    }
}

/// The seeds of one assignment: none for the file register `ZR`, which is
/// allocated only when it is written, and none for a value without points.
pub open spec fn seeds_for(key: Seq<char>, points: Option<usize>) -> Seq<SeedView> {
    match points {
        Some(count) => if same_symbol(key, "ZR"@) {
            Seq::empty()
        } else {
            Seq::new(expand(key).len(), |i: int| SeedView { key: expand(key)[i], count })
        },
        None => Seq::empty(),
    }
}

/// What one line does: whether the lines after it are in the `[devices]`
/// section, and the seeds it gives. Blank lines and lines that start with
/// `#` do nothing; a line that starts with `[` opens a section; any other
/// line counts only in the `[devices]` section and only with an `=` in it.
pub open spec fn read_line(line: Seq<char>, in_devices: bool) -> (bool, Seq<SeedView>) {
    let text = strip(line, false);
    if text.len() == 0 || text[0] == '#' {
        (in_devices, Seq::empty())
    } else if text[0] == '[' {
        (text == "[devices]"@, Seq::empty())
    } else if !in_devices || position(text, '=') >= text.len() {
        (in_devices, Seq::empty())
    } else {
        let key = strip(strip(text.subrange(0, position(text, '=') as int), false), true);
        let value = unquoted(strip(text.skip(position(text, '=') as int + 1), false));
        (in_devices, seeds_for(key, points_of(value)))
    }
}

/// The seeds of a text, line by line, from a given section state.
pub open spec fn seeds_from(text: Seq<char>, in_devices: bool) -> Seq<SeedView>
    decreases text.len(),
{
    if text.len() == 0 {
        Seq::empty()
    } else {
        let end = position(text, '\n') as int;
        if end < text.len() {
            read_line(text.subrange(0, end), in_devices).1 + seeds_from(
                text.skip(end + 1),
                read_line(text.subrange(0, end), in_devices).0,
            )
        } else {
            read_line(text, in_devices).1
        }
    }
}

/// The seeds of an assignment text.
pub open spec fn seeds_of(text: Seq<char>) -> Seq<SeedView> {
    seeds_from(text, false)
}

proof fn lemma_position_bounds(text: Seq<char>, c: char)
    ensures
        0 <= position(text, c) <= text.len(),
        position(text, c) < text.len() ==> text[position(text, c) as int] == c,
        forall|j: int| 0 <= j < position(text, c) ==> text[j] != c,
    decreases text.len(),
{
    if text.len() == 0 || text[0] == c {
    } else {
        lemma_position_bounds(text.skip(1), c);
        assert forall|j: int| 0 <= j < position(text, c) implies text[j] != c by {
            if j > 0 {
                assert(text.skip(1)[j - 1] == text[j]);
            }
        }
    }
}

fn is_space_char(c: char) -> (space: bool)
    ensures
        space == is_space(c),
{
    let code: u32 = c as u32;
    (0x09 <= code && code <= 0x0D) || code == 0x20 || code == 0x85 || code == 0xA0 || code
        == 0x1680 || (0x2000 <= code && code <= 0x200A) || code == 0x2028 || code == 0x2029
        || code == 0x202F || code == 0x205F || code == 0x3000
}

fn strips_char(c: char, quotes: bool) -> (stripped: bool)
    ensures
        stripped == strips(c, quotes),
{
    if quotes {
        c == '"'
    } else {
        is_space_char(c)
    }
}

fn skip_front_at(chars: &[char], from: usize, to: usize, quotes: bool) -> (at: usize)
    requires
        from <= to <= chars@.len(),
    ensures
        from <= at <= to,
        chars@.subrange(at as int, to as int) == skip_front(
            chars@.subrange(from as int, to as int),
            quotes,
        ),
{
    let mut at: usize = from;
    while at < to && strips_char(chars[at], quotes)
        invariant
            from <= at <= to <= chars@.len(),
            skip_front(chars@.subrange(at as int, to as int), quotes) == skip_front(
                chars@.subrange(from as int, to as int),
                quotes,
            ),
        decreases to - at,
    {
        assert(chars@.subrange(at as int, to as int).skip(1) =~= chars@.subrange(
            at + 1,
            to as int,
        ));
        at += 1;
    }
    at
}

fn skip_back_at(chars: &[char], from: usize, to: usize, quotes: bool) -> (at: usize)
    requires
        from <= to <= chars@.len(),
    ensures
        from <= at <= to,
        chars@.subrange(from as int, at as int) == skip_back(
            chars@.subrange(from as int, to as int),
            quotes,
        ),
{
    let mut at: usize = to;
    while at > from && strips_char(chars[at - 1], quotes)
        invariant
            from <= at <= to <= chars@.len(),
            skip_back(chars@.subrange(from as int, at as int), quotes) == skip_back(
                chars@.subrange(from as int, to as int),
                quotes,
            ),
        decreases at - from,
    {
        assert(chars@.subrange(from as int, at as int).drop_last() =~= chars@.subrange(
            from as int,
            at - 1,
        ));
        at -= 1;
    }
    at
}

fn position_at(chars: &[char], from: usize, to: usize, c: char) -> (at: usize)
    requires
        from <= to <= chars@.len(),
    ensures
        from <= at <= to,
        at - from == position(chars@.subrange(from as int, to as int), c),
{
    let mut at: usize = from;
    while at < to && chars[at] != c
        invariant
            from <= at <= to <= chars@.len(),
            position(chars@.subrange(from as int, to as int), c) == (at - from) + position(
                chars@.subrange(at as int, to as int),
                c,
            ),
        decreases to - at,
    {
        assert(chars@.subrange(at as int, to as int).skip(1) =~= chars@.subrange(
            at + 1,
            to as int,
        ));
        at += 1;
    }
    at
}

fn same_symbol_at(chars: &[char], from: usize, to: usize, name: &str) -> (same: bool)
    requires
        from <= to <= chars@.len(),
    ensures
        same == same_symbol(chars@.subrange(from as int, to as int), name@),
{
    let symbol = chars_of(name);
    if symbol.len() != to - from {
        return false;
    }
    let ghost key = chars@.subrange(from as int, to as int);
    let mut i: usize = 0;
    while i < symbol.len()
        invariant
            i <= symbol@.len(),
            symbol@ == name@,
            from <= to <= chars@.len(),
            symbol@.len() == to - from,
            key == chars@.subrange(from as int, to as int),
            forall|j: int| 0 <= j < i ==> fold_upper(#[trigger] key[j]) == name@[j] as u32,
        decreases symbol@.len() - i,
    {
        let code: u32 = chars[from + i] as u32;
        let folded: u32 = if 0x61 <= code && code <= 0x7A {
            code - 0x20
        } else {
            code
        };
        assert(key[i as int] == chars@[from + i]);
        if folded != symbol[i] as u32 {
            assert(fold_upper(key[i as int]) != name@[i as int] as u32);
            return false;
        }
        i += 1;
    }
    true
}

fn range_is(chars: &[char], from: usize, to: usize, literal: &str) -> (same: bool)
    requires
        from <= to <= chars@.len(),
    ensures
        same == (chars@.subrange(from as int, to as int) == literal@),
{
    let other = chars_of(literal);
    crate::text::chars_equal(slice_subrange(chars, from, to), other.as_slice())
}

fn points_at(chars: &[char], from: usize, to: usize) -> (points: Option<usize>)
    requires
        from <= to <= chars@.len(),
    ensures
        points == points_of(chars@.subrange(from as int, to as int)),
{
    if from == to {
        return None;
    }
    let ghost value = chars@.subrange(from as int, to as int);
    let limit: usize = usize::MAX - 0xFF_FFFF;
    let last: char = chars[to - 1];
    assert(value.last() == last);
    if last == 'K' || last == 'k' {
        assert(value.drop_last() =~= chars@.subrange(from as int, to - 1));
        let a = skip_front_at(chars, from, to - 1, false);
        let b = skip_back_at(chars, a, to - 1, false);
        let digits = slice_subrange(chars, a, b);
        match parse_number_text(digits, false, usize::MAX as u64) {
            Some(number) => {
                if number > 0 && number <= (limit / 1024) as u64 {
                    Some((number as usize) * 1024)
                } else {
                    None
                }
            },
            None => None,
        }
    } else {
        let digits = slice_subrange(chars, from, to);
        match parse_number_text(digits, false, usize::MAX as u64) {
            Some(number) => {
                if number > 0 && number <= limit as u64 {
                    Some(number as usize)
                } else {
                    None
                }
            },
            None => None,
        }
    }
}

fn push_seed(seeds: &mut Vec<Seed>, key: &str, count: usize)
    ensures
        seeds_view(final(seeds)@) == seeds_view(old(seeds)@).push(SeedView { key: key@, count }),
{
    seeds.push(Seed { key: String::from_str(key), count });
    assert(seeds_view(seeds@) =~= seeds_view(old(seeds)@).push(SeedView { key: key@, count }));
}

fn push_three(seeds: &mut Vec<Seed>, first: &str, second: &str, third: &str, count: usize)
    ensures
        seeds_view(final(seeds)@) == seeds_view(old(seeds)@) + seq![
            SeedView { key: first@, count },
            SeedView { key: second@, count },
            SeedView { key: third@, count },
        ],
{
    push_seed(seeds, first, count);
    push_seed(seeds, second, count);
    push_seed(seeds, third, count);
    assert(seeds_view(seeds@) =~= seeds_view(old(seeds)@) + seq![
        SeedView { key: first@, count },
        SeedView { key: second@, count },
        SeedView { key: third@, count },
    ]);
}

fn push_seeds_for(
    seeds: &mut Vec<Seed>,
    text: &str,
    chars: &[char],
    from: usize,
    to: usize,
    points: Option<usize>,
)
    requires
        from <= to <= chars@.len(),
        chars@ == text@,
    ensures
        seeds_view(final(seeds)@) == seeds_view(old(seeds)@) + seeds_for(
            chars@.subrange(from as int, to as int),
            points,
        ),
{
    let ghost key = chars@.subrange(from as int, to as int);
    let count = match points {
        Some(count) => count,
        None => {
            assert(seeds_view(seeds@) =~= seeds_view(old(seeds)@) + Seq::<SeedView>::empty());
            return ;
        },
    };
    if same_symbol_at(chars, from, to, "ZR") {
        assert(seeds_view(seeds@) =~= seeds_view(old(seeds)@) + Seq::<SeedView>::empty());
        return ;
    }
    if same_symbol_at(chars, from, to, "T") {
        push_three(seeds, "TS", "TN", "TC", count);
    } else if same_symbol_at(chars, from, to, "LT") {
        push_three(seeds, "LTS", "LTN", "LTC", count);
    } else if same_symbol_at(chars, from, to, "ST") {
        push_three(seeds, "STS", "STN", "STC", count);
    } else if same_symbol_at(chars, from, to, "LST") {
        push_three(seeds, "LSTS", "LSTN", "LSTC", count);
    } else if same_symbol_at(chars, from, to, "C") {
        push_three(seeds, "CTS", "CTN", "CTC", count);
    } else if same_symbol_at(chars, from, to, "LC") {
        push_three(seeds, "LCTS", "LCTN", "LCTC", count);
    } else {
        let own = text.substring_char(from, to);
        push_seed(seeds, own, count);
    }
    assert(seeds_view(seeds@) =~= seeds_view(old(seeds)@) + seeds_for(key, points));
}

fn read_line_at(
    seeds: &mut Vec<Seed>,
    text: &str,
    chars: &[char],
    from: usize,
    to: usize,
    in_devices: bool,
) -> (still: bool)
    requires
        from <= to <= chars@.len(),
        chars@ == text@,
    ensures
        still == read_line(chars@.subrange(from as int, to as int), in_devices).0,
        seeds_view(final(seeds)@) == seeds_view(old(seeds)@) + read_line(
            chars@.subrange(from as int, to as int),
            in_devices,
        ).1,
{
    let ghost line = chars@.subrange(from as int, to as int);
    let a = skip_front_at(chars, from, to, false);
    let b = skip_back_at(chars, a, to, false);
    let ghost stripped = chars@.subrange(a as int, b as int);
    assert(stripped == strip(line, false));
    assert(seeds_view(seeds@) =~= seeds_view(old(seeds)@) + Seq::<SeedView>::empty());
    if a == b {
        return in_devices;
    }
    assert(stripped[0] == chars@[a as int]);
    if chars[a] == '#' {
        return in_devices;
    }
    if chars[a] == '[' {
        return range_is(chars, a, b, "[devices]");
    }
    if !in_devices {
        return in_devices;
    }
    let eq = position_at(chars, a, b, '=');
    if eq == b {
        return in_devices;
    }
    assert(stripped.subrange(0, eq - a) =~= chars@.subrange(a as int, eq as int));
    assert(stripped.skip(eq - a + 1) =~= chars@.subrange(eq + 1, b as int));
    let key_a = skip_front_at(chars, a, eq, false);
    let key_b = skip_back_at(chars, key_a, eq, false);
    let bare_a = skip_front_at(chars, key_a, key_b, true);
    let bare_b = skip_back_at(chars, bare_a, key_b, true);
    let value_a = skip_front_at(chars, eq + 1, b, false);
    let value_b = skip_back_at(chars, value_a, b, false);
    let ghost value = chars@.subrange(value_a as int, value_b as int);
    let points = if value_b - value_a >= 2 && chars[value_a] == '"' && chars[value_b - 1] == '"' {
        assert(value[0] == '"' && value.last() == '"');
        assert(unquoted(value) =~= chars@.subrange(value_a + 1, value_b - 1));
        points_at(chars, value_a + 1, value_b - 1)
    } else {
        assert(value.len() >= 2 ==> value[0] == chars@[value_a as int] && value.last()
            == chars@[value_b - 1]);
        points_at(chars, value_a, value_b)
    };
    push_seeds_for(seeds, text, chars, bare_a, bare_b, points);
    in_devices
}

/// Reads an assignment text into the areas to seed, in the order of the
/// text: compound timer and counter symbols expanded, `ZR` left out. Symbols
/// are told whatever the case of their ASCII letters, and by those alone.
pub fn parse_assignment(text: &str) -> (seeds: Vec<Seed>)
    ensures
        seeds_view(seeds@) == seeds_of(text@),
{
    let chars = chars_of(text);
    let total: usize = chars.len();
    let mut seeds: Vec<Seed> = Vec::new();
    let mut in_devices = false;
    let mut pos: usize = 0;
    assert(chars@.skip(0) =~= chars@);
    assert(seeds_view(seeds@) =~= Seq::<SeedView>::empty());
    while pos < total
        invariant
            pos <= total,
            total == chars@.len(),
            chars@ == text@,
            seeds_of(text@) == seeds_view(seeds@) + seeds_from(
                chars@.skip(pos as int),
                in_devices,
            ),
        decreases total - pos,
    {
        let ghost rest = chars@.skip(pos as int);
        let ghost before = seeds_view(seeds@);
        let end = position_at(chars.as_slice(), pos, total, '\n');
        assert(rest =~= chars@.subrange(pos as int, total as int));
        assert(rest.subrange(0, end - pos) =~= chars@.subrange(pos as int, end as int));
        let still = read_line_at(&mut seeds, text, chars.as_slice(), pos, end, in_devices);
        if end < total {
            assert(rest.skip(end - pos + 1) =~= chars@.skip(end + 1));
            assert(seeds_view(seeds@) + seeds_from(chars@.skip(end + 1), still) =~= before + (
            read_line(rest.subrange(0, end - pos), in_devices).1 + seeds_from(
                chars@.skip(end + 1),
                still,
            )));
            in_devices = still;
            pos = end + 1;
        } else {
            assert(rest.subrange(0, end - pos) =~= rest);
            assert(chars@.skip(total as int) =~= Seq::<char>::empty());
            assert(seeds_view(seeds@) + seeds_from(chars@.skip(total as int), still) =~= before
                + read_line(rest, in_devices).1);
            in_devices = still;
            pos = total;
        }
    }
    assert(chars@.skip(total as int) =~= Seq::<char>::empty());
    assert(seeds_view(seeds@) + Seq::<SeedView>::empty() =~= seeds_view(seeds@));
    seeds
}

/// A run of zero words.
pub open spec fn zeros(count: nat) -> Seq<Word> {
    Seq::new(count, |i: int| 0u16)
}

/// The store after each seed was written as zeros at address 0 of the area
/// that its key resolved to, seed `i` by what the device tables said in
/// `lookups[i]`.
pub open spec fn seeded(areas: Areas, seeds: Seq<SeedView>, lookups: Seq<KeyLookup>) -> Areas
    decreases seeds.len(),
{
    if seeds.len() == 0 || lookups.len() == 0 {
        areas
    } else {
        write_words(
            seeded(areas, seeds.drop_last(), lookups.drop_last()),
            resolve(lookups.last(), seeds.last().key, 0).0,
            resolve(lookups.last(), seeds.last().key, 0).1 as int,
            zeros(seeds.last().count as nat),
        )
    }
}

/// Whether `lookups` can be what the device tables said, one for each seed.
pub open spec fn lookups_for(seeds: Seq<SeedView>, lookups: Seq<KeyLookup>) -> bool {
    lookups.len() == seeds.len() && forall|i: int|
        0 <= i < lookups.len() ==> (#[trigger] lookups[i]).answers(seeds[i].key)
}

fn zero_words(count: usize) -> (words: Vec<Word>)
    ensures
        words@ == zeros(count as nat),
{
    let mut words: Vec<Word> = Vec::new();
    let mut i: usize = 0;
    while i < count
        invariant
            i <= count,
            words@.len() == i,
            forall|j: int| 0 <= j < i ==> words@[j] == 0,
        decreases count - i,
    {
        words.push(0);
        i += 1;
    }
    assert(words@ =~= zeros(count as nat));
    words
}

impl DeviceMap {
    /// Seeds the store with zeroed areas. Each seed is written under its key
    /// at address 0; the key is resolved against the device tables of the
    /// process, so the contract says what holds whatever they answer.
    pub fn seed(&mut self, seeds: &Vec<Seed>)
        requires
            forall|i: int| 0 <= i < seeds@.len() ==> (#[trigger] seeds@[i]).count <= max_points(),
        ensures
            exists|lookups: Seq<KeyLookup>|
                lookups_for(seeds_view(seeds@), lookups) && final(self)@ == #[trigger] seeded(
                    old(self)@,
                    seeds_view(seeds@),
                    lookups,
                ),
    {
        let ghost views = seeds_view(seeds@);
        let ghost mut lookups: Seq<KeyLookup> = Seq::empty();
        assert(views.subrange(0, 0) =~= Seq::<SeedView>::empty());
        let mut i: usize = 0;
        while i < seeds.len()
            invariant
                i <= seeds@.len(),
                views == seeds_view(seeds@),
                forall|j: int|
                    0 <= j < seeds@.len() ==> (#[trigger] seeds@[j]).count <= max_points(),
                lookups_for(views.subrange(0, i as int), lookups),
                self@ == seeded(old(self)@, views.subrange(0, i as int), lookups),
            decreases seeds@.len() - i,
        {
            let ghost before = self@;
            let words = zero_words(seeds[i].count);
            self.set_words(seeds[i].key.as_str(), 0, words.as_slice());
            proof {
                let lookup = choose|lookup: KeyLookup|
                    lookup.answers(seeds@[i as int].key@) && self@ == write_words(
                        before,
                        (#[trigger] resolve(lookup, seeds@[i as int].key@, 0)).0,
                        resolve(lookup, seeds@[i as int].key@, 0).1 as int,
                        words@,
                    );
                let longer = lookups.push(lookup);
                assert(longer.drop_last() =~= lookups);
                assert(views.subrange(0, i + 1).drop_last() =~= views.subrange(0, i as int));
                assert(views.subrange(0, i + 1).last() == seeds@[i as int]@);
                lookups = longer;
            }
            i += 1;
        }
        assert(views.subrange(0, i as int) =~= views);
    }

    /// Seeds the store from an assignment text: every area that the text
    /// assigns points to is written as that many zero words.
    pub fn populate_from_toml(&mut self, text: &str)
        ensures
            exists|lookups: Seq<KeyLookup>|
                lookups_for(seeds_of(text@), lookups) && final(self)@ == #[trigger] seeded(
                    old(self)@,
                    seeds_of(text@),
                    lookups,
                ),
    {
        let seeds = parse_assignment(text);
        proof {
            lemma_seed_counts(text@, false);
            assert forall|i: int| 0 <= i < seeds@.len() implies (#[trigger] seeds@[i]).count
                <= max_points() by {
                assert(seeds_view(seeds@)[i].count == seeds@[i].count);
                assert(0 < seeds_of(text@)[i].count <= max_points());
            }
        }
        self.seed(&seeds);
    }
}

/// Whether every seed asks for at least one point and for no more than
/// [`max_points`].
pub open spec fn counts_in_range(seeds: Seq<SeedView>) -> bool {
    forall|i: int| 0 <= i < seeds.len() ==> 0 < (#[trigger] seeds[i]).count <= max_points()
}

/// Every seed of a text asks for at least one point and for no more than
/// [`max_points`].
pub proof fn lemma_seed_counts(text: Seq<char>, in_devices: bool)
    ensures
        counts_in_range(seeds_from(text, in_devices)),
    decreases text.len(),
{
    if text.len() > 0 {
        let end = position(text, '\n') as int;
        lemma_position_bounds(text, '\n');
        if end < text.len() {
            let line = read_line(text.subrange(0, end), in_devices);
            lemma_seed_counts(text.skip(end + 1), line.0);
            let rest = seeds_from(text.skip(end + 1), line.0);
            assert(counts_in_range(line.1));
            assert forall|i: int| 0 <= i < (line.1 + rest).len() implies 0 < (#[trigger] (line.1
                + rest)[i]).count <= max_points() by {
                if i < line.1.len() {
                    assert((line.1 + rest)[i] == line.1[i]);
                } else {
                    assert((line.1 + rest)[i] == rest[i - line.1.len()]);
                }
            }
        } else {
            assert(counts_in_range(read_line(text, in_devices).1));
        }
    }
}

/// Whether no seed is for the file register `ZR`, in whatever case.
pub open spec fn none_for_zr(seeds: Seq<SeedView>) -> bool {
    forall|i: int| 0 <= i < seeds.len() ==> !same_symbol((#[trigger] seeds[i]).key, "ZR"@)
}

proof fn lemma_expansion_is_not_zr(key: Seq<char>)
    requires
        !same_symbol(key, "ZR"@),
    ensures
        forall|i: int| 0 <= i < expand(key).len() ==> !same_symbol(#[trigger] expand(key)[i], "ZR"@),
{
    reveal_strlit("ZR");
    reveal_strlit("TS");
    reveal_strlit("TN");
    reveal_strlit("TC");
    reveal_strlit("LTS");
    reveal_strlit("LTN");
    reveal_strlit("LTC");
    reveal_strlit("STS");
    reveal_strlit("STN");
    reveal_strlit("STC");
    reveal_strlit("LSTS");
    reveal_strlit("LSTN");
    reveal_strlit("LSTC");
    reveal_strlit("CTS");
    reveal_strlit("CTN");
    reveal_strlit("CTC");
    reveal_strlit("LCTS");
    reveal_strlit("LCTN");
    reveal_strlit("LCTC");
    assert(fold_upper("TS"@[0]) != "ZR"@[0] as u32);
    assert(fold_upper("TN"@[0]) != "ZR"@[0] as u32);
    assert(fold_upper("TC"@[0]) != "ZR"@[0] as u32);
}

/// The file register `ZR` is never seeded: no seed of a text is for it.
pub proof fn lemma_zr_not_seeded(text: Seq<char>, in_devices: bool)
    ensures
        none_for_zr(seeds_from(text, in_devices)),
    decreases text.len(),
{
    if text.len() > 0 {
        let end = position(text, '\n') as int;
        lemma_position_bounds(text, '\n');
        let first = if end < text.len() {
            text.subrange(0, end)
        } else {
            text
        };
        let line = read_line(first, in_devices);
        assert(none_for_zr(line.1)) by {
            let stripped = strip(first, false);
            if line.1.len() > 0 {
                let key = strip(
                    strip(stripped.subrange(0, position(stripped, '=') as int), false),
                    true,
                );
                lemma_expansion_is_not_zr(key);
            }
        }
        if end < text.len() {
            lemma_zr_not_seeded(text.skip(end + 1), line.0);
            let rest = seeds_from(text.skip(end + 1), line.0);
            assert forall|i: int| 0 <= i < (line.1 + rest).len() implies !same_symbol(
                (#[trigger] (line.1 + rest)[i]).key,
                "ZR"@,
            ) by {
                if i < line.1.len() {
                    assert((line.1 + rest)[i] == line.1[i]);
                } else {
                    assert((line.1 + rest)[i] == rest[i - line.1.len()]);
                }
            }
        }
    }
}

} // verus!
