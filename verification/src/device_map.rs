//! The device store: one dense vector of 16-bit words per device code.

use crate::device_key::{resolve, resolve_key, KeyLookup};
use std::collections::HashMap;
use vstd::prelude::*;
use vstd::string::*;

verus! {

broadcast use vstd::std_specs::hash::group_hash_axioms;

/// A stored word. Bit devices hold 0 or 1 in a whole word.
pub type Word = u16;

/// Whether a device is addressed word by word or bit by bit.
#[derive(Debug, Clone, Copy, PartialEq, Eq, Hash)]
pub enum DeviceUnit {
    Word,
    Bit,
}

/// The identity of a device area: its numeric device code and its unit.
#[derive(Debug, Clone, Copy, PartialEq, Eq, Hash)]
pub struct DeviceKey {
    pub code: u8,
    pub unit: DeviceUnit,
}

impl DeviceKey {
    /// The key of the word-addressed area with the given device code.
    pub fn from_code(code: u8) -> (key: DeviceKey)
        ensures
            key.code == code,
            key.unit == DeviceUnit::Word,
    {
        DeviceKey { code, unit: DeviceUnit::Word }
    }

    /// The numeric device code.
    pub fn code(&self) -> (code: u8)
        ensures
            code == self.code,
    {
        self.code
    }
}

/// The abstract store: device code to the words written so far.
pub type Areas = Map<u8, Seq<Word>>;

/// The word at `at` in area `code`; zero where nothing was ever written.
pub open spec fn word_at(areas: Areas, code: u8, at: int) -> Word {
    if areas.contains_key(code) && 0 <= at < areas[code].len() {
        areas[code][at]
    } else {
        0
    }
}

/// `count` words of area `code` from `addr` on, zero past the stored tail.
pub open spec fn read_words(areas: Areas, code: u8, addr: int, count: nat) -> Seq<Word> {
    Seq::new(count, |i: int| word_at(areas, code, addr + i))
}

/// The words of area `code`, empty for an area that does not exist.
pub open spec fn area_of(areas: Areas, code: u8) -> Seq<Word> {
    if areas.contains_key(code) {
        areas[code]
    } else {
        Seq::empty()
    }
}

/// `words` laid over `area` at `addr`: the area grows to `addr + |words|`
/// if it was shorter, and the gap is filled with zeros.
pub open spec fn overlay(area: Seq<Word>, addr: int, words: Seq<Word>) -> Seq<Word> {
    let len = if area.len() < addr + words.len() {
        addr + words.len()
    } else {
        area.len() as int
    };
    Seq::new(
        len as nat,
        |i: int|
            if addr <= i < addr + words.len() {
                words[i - addr]
            } else if i < area.len() {
                area[i]
            } else {
                0
            },
    )
}

/// The store after `words` were written to area `code` at `addr`.
pub open spec fn write_words(areas: Areas, code: u8, addr: int, words: Seq<Word>) -> Areas {
    areas.insert(code, overlay(area_of(areas, code), addr, words))
}

/// In-memory storage for the device areas of the mock controller.
#[derive(Debug)]
pub struct DeviceMap {
    inner: HashMap<u8, Vec<Word>>,
}

impl View for DeviceMap {
    type V = Areas;

    closed spec fn view(&self) -> Areas {
        Map::new(|code: u8| self.inner@.contains_key(code), |code: u8| self.inner@[code]@)
    }
}

impl DeviceMap {
    /// An empty store.
    pub fn new() -> (store: DeviceMap)
        ensures
            store@ == Map::<u8, Seq<Word>>::empty(),
    {
        let store = DeviceMap { inner: HashMap::new() };
        assert(store@ =~= Map::<u8, Seq<Word>>::empty());
        store
    }

    /// Forgets every area.
    pub fn clear(&mut self)
        ensures
            final(self)@ == Map::<u8, Seq<Word>>::empty(),
    {
        self.inner.clear();
        assert(self@ =~= Map::<u8, Seq<Word>>::empty());
    }

    /// Whether no area exists.
    pub fn is_empty(&self) -> (empty: bool)
        ensures
            empty == (self@ == Map::<u8, Seq<Word>>::empty()),
    {
        let empty = self.inner.is_empty();
        proof {
            if empty {
                assert(self@ =~= Map::<u8, Seq<Word>>::empty());
            } else {
                let code = choose|code: u8| self.inner@.contains_key(code);
                assert(self@.contains_key(code));
            }
        }
        empty
    }

    /// Whether the area of `key` exists.
    pub fn contains(&self, key: DeviceKey) -> (present: bool)
        ensures
            present == self@.contains_key(key.code),
    {
        self.inner.contains_key(&key.code)
    }

    /// Normalizes `key` and `addr`, grows the area of the resolved code to
    /// hold the range, and copies `words` into it.
    pub fn set_words(&mut self, key: &str, addr: usize, words: &[Word])
        requires
            addr + words@.len() <= usize::MAX,
            0xFF_FFFF + words@.len() <= usize::MAX,
        ensures
            exists|lookup: KeyLookup|
                lookup.answers(key@) && final(self)@ == write_words(
                    old(self)@,
                    (#[trigger] resolve(lookup, key@, addr)).0,
                    resolve(lookup, key@, addr).1 as int,
                    words@,
                ),
    {
        let resolved = resolve_key(key, addr);
        self.write_at(DeviceKey::from_code(resolved.0), resolved.1, words);
    }

    /// Normalizes `key` and `addr` and reads `count` words of the resolved
    /// area, zero past its stored tail and zero throughout where the area
    /// does not exist. No area is created.
    pub fn get_words(&self, key: &str, addr: usize, count: usize) -> (words: Vec<Word>)
        ensures
            exists|lookup: KeyLookup|
                lookup.answers(key@) && words@ == read_words(
                    self@,
                    (#[trigger] resolve(lookup, key@, addr)).0,
                    resolve(lookup, key@, addr).1 as int,
                    count as nat,
                ),
            words@.len() == count,
            self@ == Map::<u8, Seq<Word>>::empty() ==> words@ == Seq::new(
                count as nat,
                |i: int| 0u16,
            ),
    {
        let resolved = resolve_key(key, addr);
        let words = self.read_at(DeviceKey::from_code(resolved.0), resolved.1, count);
        proof {
            if self@ == Map::<u8, Seq<Word>>::empty() {
                lemma_fresh_store_reads_zero(resolved.0, resolved.1 as int, count as nat);
            }
        }
        words
    }

    /// Whether the area that `key` resolves to exists.
    pub fn has_key(&self, key: &str) -> (present: bool)
        ensures
            exists|lookup: KeyLookup|
                lookup.answers(key@) && present == self@.contains_key(
                    (#[trigger] resolve(lookup, key@, 0)).0,
                ),
            self@ == Map::<u8, Seq<Word>>::empty() ==> !present,
    {
        let resolved = resolve_key(key, 0);
        self.contains(DeviceKey::from_code(resolved.0))
    }

    /// Writes `words` into the area of `key` at `addr`, creating or growing
    /// the area as needed.
    pub fn write_at(&mut self, key: DeviceKey, addr: usize, words: &[Word])
        requires
            addr + words@.len() <= usize::MAX,
        ensures
            final(self)@ == write_words(old(self)@, key.code, addr as int, words@),
    {
        let code = key.code;
        let ghost before = self@;
        let mut area: Vec<Word> = match self.inner.remove(&code) {
            Some(found) => found,
            None => Vec::new(),
        };
        assert(area@ == area_of(before, code));
        let end: usize = addr + words.len();
        if area.len() < end {
            area.resize(end, 0);
        }
        let ghost grown = area@;
        let mut i: usize = 0;
        while i < words.len()
            invariant
                i <= words@.len(),
                addr + words@.len() <= area@.len() <= usize::MAX,
                area@.len() == grown.len(),
                forall|j: int|
                    0 <= j < area@.len() ==> area@[j] == if addr <= j < addr + i {
                        words@[j - addr]
                    } else {
                        grown[j]
                    },
            decreases words@.len() - i,
        {
            area.set(addr + i, words[i]);
            i += 1;
        }
        assert(area@ =~= overlay(area_of(before, code), addr as int, words@));
        self.inner.insert(code, area);
        assert(self@ =~= write_words(before, code, addr as int, words@));
    }

    /// Reads `count` words of the area of `key` from `addr` on. Words past
    /// the stored tail, and every word of an area that does not exist, read
    /// as zero. The store is left as it is.
    pub fn read_at(&self, key: DeviceKey, addr: usize, count: usize) -> (words: Vec<Word>)
        ensures
            words@ == read_words(self@, key.code, addr as int, count as nat),
    {
        let code = key.code;
        let mut out: Vec<Word> = Vec::new();
        let found = self.inner.get(&code);
        let mut i: usize = 0;
        while i < count
            invariant
                i <= count,
                out@.len() == i,
                match found {
                    Some(area) => self@.contains_key(code) && self@[code] == area@,
                    None => !self@.contains_key(code),
                },
                forall|j: int| 0 <= j < i ==> out@[j] == word_at(self@, code, addr + j),
            decreases count - i,
        {
            let word: Word = match found {
                Some(area) => {
                    if i < area.len() && addr < area.len() - i {
                        area[addr + i]
                    } else {
                        0
                    }
                },
                None => 0,
            };
            out.push(word);
            i += 1;
        }
        assert(out@ =~= read_words(self@, code, addr as int, count as nat));
        out
    }
}

/// One area of a snapshot as contracts see it.
pub open spec fn entry_view(entry: (u8, Vec<Word>)) -> (u8, Seq<Word>) {
    (entry.0, entry.1@)
}

/// The areas of a snapshot as contracts see them.
pub open spec fn entries_view(entries: Seq<(u8, Vec<Word>)>) -> Seq<(u8, Seq<Word>)> {
    Seq::new(entries.len(), |i: int| entry_view(entries[i]))
}

/// The areas with a code below `upto`, by rising code.
pub open spec fn areas_below(areas: Areas, upto: int) -> Seq<(u8, Seq<Word>)>
    decreases upto,
{
    if upto <= 0 {
        Seq::empty()
    } else if areas.contains_key((upto - 1) as u8) {
        areas_below(areas, upto - 1).push(((upto - 1) as u8, areas[(upto - 1) as u8]))
    } else {
        areas_below(areas, upto - 1)
    }
}

/// The store that holds the given areas; of two with one code the later.
pub open spec fn areas_from(entries: Seq<(u8, Seq<Word>)>) -> Areas
    decreases entries.len(),
{
    if entries.len() == 0 {
        Map::empty()
    } else {
        areas_from(entries.drop_last()).insert(entries.last().0, entries.last().1)
    }
}

impl DeviceMap {
    /// All areas of the store, by rising device code.
    pub fn entries(&self) -> (entries: Vec<(u8, Vec<Word>)>)
        ensures
            entries_view(entries@) == areas_below(self@, 256),
    {
        let mut entries: Vec<(u8, Vec<Word>)> = Vec::new();
        assert(entries_view(entries@) =~= areas_below(self@, 0));
        let mut code: u16 = 0;
        while code < 256
            invariant
                code <= 256,
                entries_view(entries@) == areas_below(self@, code as int),
            decreases 256 - code,
        {
            let ghost before = entries_view(entries@);
            match self.inner.get(&(code as u8)) {
                Some(area) => {
                    let mut words: Vec<Word> = Vec::new();
                    let mut i: usize = 0;
                    while i < area.len()
                        invariant
                            i <= area@.len(),
                            words@ == area@.subrange(0, i as int),
                        decreases area@.len() - i,
                    {
                        words.push(area[i]);
                        assert(words@ =~= area@.subrange(0, i + 1));
                        i += 1;
                    }
                    assert(area@.subrange(0, i as int) =~= area@);
                    entries.push((code as u8, words));
                    assert(entries_view(entries@) =~= before.push((code as u8, area@)));
                },
                None => {},
            }
            code += 1;
        }
        entries
    }

    /// The store that holds the given areas; of two with one code the later.
    pub fn from_entries(entries: &Vec<(u8, Vec<Word>)>) -> (store: DeviceMap)
        ensures
            store@ == areas_from(entries_view(entries@)),
    {
        let ghost views = entries_view(entries@);
        let mut store = DeviceMap::new();
        assert(store@ =~= areas_from(views.subrange(0, 0)));
        let mut i: usize = 0;
        while i < entries.len()
            invariant
                i <= entries@.len(),
                views == entries_view(entries@),
                store@ == areas_from(views.subrange(0, i as int)),
            decreases entries@.len() - i,
        {
            let area = &entries[i].1;
            let mut words: Vec<Word> = Vec::new();
            let mut j: usize = 0;
            while j < area.len()
                invariant
                    j <= area@.len(),
                    words@ == area@.subrange(0, j as int),
                decreases area@.len() - j,
            {
                words.push(area[j]);
                assert(words@ =~= area@.subrange(0, j + 1));
                j += 1;
            }
            assert(area@.subrange(0, j as int) =~= area@);
            let ghost areas = store@;
            store.inner.insert(entries[i].0, words);
            assert(store@ =~= areas.insert(views[i as int].0, views[i as int].1));
            assert(views.subrange(0, i + 1).drop_last() =~= views.subrange(0, i as int));
            assert(views.subrange(0, i + 1).last() == views[i as int]);
            i += 1;
        }
        assert(views.subrange(0, i as int) =~= views);
        store
    }
}

impl Default for DeviceMap {
    fn default() -> (store: DeviceMap)
        ensures
            store@ == Map::<u8, Seq<Word>>::empty(),
    {
        DeviceMap::new()
    }
}

/// A store that was never written reads as zeros everywhere, and holds no
/// area, whatever the code and the range.
pub proof fn lemma_fresh_store_reads_zero(code: u8, addr: int, count: nat)
    ensures
        read_words(Map::<u8, Seq<Word>>::empty(), code, addr, count) == Seq::new(
            count,
            |i: int| 0u16,
        ),
        !Map::<u8, Seq<Word>>::empty().contains_key(code),
{
    assert(read_words(Map::<u8, Seq<Word>>::empty(), code, addr, count) =~= Seq::new(
        count,
        |i: int| 0u16,
    ));
}

/// After a write, the area exists and reading the written range gives the
/// written words back.
pub proof fn lemma_read_after_write(areas: Areas, code: u8, addr: int, words: Seq<Word>)
    requires
        0 <= addr,
    ensures
        write_words(areas, code, addr, words).contains_key(code),
        read_words(write_words(areas, code, addr, words), code, addr, words.len()) == words,
{
    assert(read_words(write_words(areas, code, addr, words), code, addr, words.len()) =~= words);
}

/// Reading past a written range gives the written words, then whatever the
/// store held behind them before the write.
pub proof fn lemma_read_beyond_write(
    areas: Areas,
    code: u8,
    addr: int,
    words: Seq<Word>,
    extra: nat,
)
    requires
        0 <= addr,
    ensures
        read_words(write_words(areas, code, addr, words), code, addr, words.len() + extra)
            == words + read_words(areas, code, addr + words.len(), extra),
{
    assert(read_words(write_words(areas, code, addr, words), code, addr, words.len() + extra)
        =~= words + read_words(areas, code, addr + words.len(), extra));
}

/// Where the area held nothing behind the written range, reading `extra`
/// words past it gives the written words followed by `extra` zeros.
pub proof fn lemma_read_past_tail(areas: Areas, code: u8, addr: int, words: Seq<Word>, extra: nat)
    requires
        0 <= addr,
        area_of(areas, code).len() <= addr + words.len(),
    ensures
        read_words(write_words(areas, code, addr, words), code, addr, words.len() + extra)
            == words + Seq::new(extra, |i: int| 0u16),
{
    lemma_read_beyond_write(areas, code, addr, words, extra);
    assert(read_words(areas, code, addr + words.len(), extra) =~= Seq::new(
        extra,
        |i: int| 0u16,
    ));
}

/// A write leaves every other area, and every word outside the written
/// range, as it was.
pub proof fn lemma_write_preserves(
    areas: Areas,
    code: u8,
    addr: int,
    words: Seq<Word>,
    other: u8,
    at: int,
)
    requires
        0 <= addr,
        other != code || at < addr || addr + words.len() <= at,
    ensures
        word_at(write_words(areas, code, addr, words), other, at) == word_at(areas, other, at),
        other != code ==> write_words(areas, code, addr, words).contains_key(other)
            == areas.contains_key(other),
{
}

/// Set then get under one key: for whatever the device tables answer, as
/// long as they answer both calls alike, the written words are read back
/// and the key is present.
pub proof fn lemma_set_then_get(
    areas: Areas,
    lookup: KeyLookup,
    key: Seq<char>,
    addr: usize,
    words: Seq<Word>,
)
    ensures
        write_words(
            areas,
            resolve(lookup, key, addr).0,
            resolve(lookup, key, addr).1 as int,
            words,
        ).contains_key(resolve(lookup, key, addr).0),
        read_words(
            write_words(
                areas,
                resolve(lookup, key, addr).0,
                resolve(lookup, key, addr).1 as int,
                words,
            ),
            resolve(lookup, key, addr).0,
            resolve(lookup, key, addr).1 as int,
            words.len(),
        ) == words,
{
    lemma_read_after_write(
        areas,
        resolve(lookup, key, addr).0,
        resolve(lookup, key, addr).1 as int,
        words,
    );
}

/// The areas of a store, listed by rising code and put into a store again,
/// are the store.
pub proof fn lemma_entries_restore(areas: Areas)
    ensures
        areas_from(areas_below(areas, 256)) == areas,
{
    let restored = areas_from(areas_below(areas, 256));
    assert forall|code: u8| restored.contains_key(code) == areas.contains_key(code) by {
        lemma_entries_restore_at(areas, 256, code);
    }
    assert forall|code: u8| restored.contains_key(code) implies restored[code] == areas[code] by {
        lemma_entries_restore_at(areas, 256, code);
    }
    assert(restored =~= areas);
}

proof fn lemma_entries_restore_at(areas: Areas, upto: int, code: u8)
    requires
        0 <= upto <= 256,
    ensures
        areas_from(areas_below(areas, upto)).contains_key(code) == (code < upto
            && areas.contains_key(code)),
        code < upto && areas.contains_key(code) ==> areas_from(areas_below(areas, upto))[code]
            == areas[code],
    decreases upto,
{
    if upto > 0 {
        lemma_entries_restore_at(areas, upto - 1, code);
        let last = (upto - 1) as u8;
        let shorter = areas_below(areas, upto - 1);
        if areas.contains_key(last) {
            let listed = areas_below(areas, upto);
            assert(listed == shorter.push((last, areas[last])));
            assert(listed.drop_last() =~= shorter);
            assert(listed.last() == (last, areas[last]));
            assert(areas_from(listed) == areas_from(shorter).insert(last, areas[last]));
        }
    } else {
        assert(areas_below(areas, upto) =~= Seq::<(u8, Seq<Word>)>::empty());
    }
}

} // verus!
