use melsec_mc_mock::assignment::{parse_assignment, Seed};
use melsec_mc_mock::device_key::{
    canonical_key_text, literal_key_code, lookup_key, normalize_key_addr, resolve_key,
    resolve_with, KeyLookup,
};
use melsec_mc_mock::device_map::{DeviceKey, DeviceMap, DeviceUnit};
use melsec_mc_mock::server::MockServer;
use melsec_mc_mock::text::parse_number_text;

const ASSIGNMENT: &str = "# device points of the mock controller\n\
[devices]\n\
X = 8K\n\
Y = 8K\n\
M = 8192\n\
B = \"8K\"\n\
D = 12288\n\
W = 8K\n\
Z = 20\n\
T = 2K\n\
C = 1K\n\
\"SD\" = 2048\n\
ZR = 393216\n\
R = 0\n\
F = many\n\
\n\
[other]\n\
L = 8K\n";

fn chars(text: &str) -> Vec<char> {
    text.chars().collect()
}

#[test]
fn set_get_words_roundtrip() {
    let mut dm = DeviceMap::new();
    dm.set_words("D", 0, &[0x1234u16, 0x5678u16]);
    let got = dm.get_words("D", 0, 2);
    assert_eq!(got, vec![0x1234u16, 0x5678u16]);
}

#[test]
fn populate_from_toml_loads_defaults() {
    let mut dm = DeviceMap::new();
    dm.populate_from_toml(ASSIGNMENT);
    assert!(!dm.is_empty(), "device map should not be empty after populate");
    // spot-check a few devices
    assert_eq!(dm.get_words("X", 0, 1), vec![0u16]);
    assert_eq!(dm.get_words("Z", 19, 1), vec![0u16]);
    // D has 12288 points in the text; ensure the last index is present
    assert_eq!(dm.get_words("D", 12287, 1), vec![0u16]);
    assert!(dm.has_key("D"));
    assert!(dm.has_key("X"));
    assert!(dm.has_key("TS"));
    assert!(dm.has_key("TN"));
    assert!(dm.has_key("TC"));
    assert!(dm.has_key("SD"));
    // an entry outside of [devices], one of zero points and one without a number
    assert!(!dm.has_key("L"));
    assert!(!dm.has_key("R"));
    assert!(!dm.has_key("F"));
}

#[test]
fn zr_is_lazy_allocated_and_allocates_on_write() {
    let mut dm = DeviceMap::new();
    dm.populate_from_toml(ASSIGNMENT);
    // ZR should NOT be present as a preallocated key
    assert!(!dm.has_key("ZR"), "ZR should not be preallocated by default");
    // reading returns zeros without creating the key
    assert_eq!(dm.get_words("ZR", 0, 1), vec![0u16]);
    assert!(!dm.has_key("ZR"), "get_words should not create the key");
    // writing should create the key
    dm.set_words("ZR", 0, &[0x1234u16]);
    assert!(dm.has_key("ZR"), "set_words should create ZR entry");
    assert_eq!(dm.get_words("ZR", 0, 1), vec![0x1234u16]);
}

#[test]
fn legacy_combined_key_roundtrip() {
    let mut s = MockServer::new();
    // set using combined key
    s.set_words("D100", 0, &[0x42u16]);
    let got = s.get_words("D", 100, 1);
    assert_eq!(got, vec![0x42u16]);
}

#[test]
fn separated_key_roundtrip() {
    let mut s = MockServer::new();
    s.set_words("D", 200, &[0x99u16]);
    let got = s.get_words("D200", 0, 1);
    assert_eq!(got, vec![0x99u16]);
}

#[test]
fn ambiguous_combined_key_prefers_addr() {
    let mut s = MockServer::new();
    // ambiguous: combined key present but explicit addr non-zero -> prefer explicit addr
    s.set_words("D300", 50, &[0x77u16]);
    // should be written at address 50
    let got = s.get_words("D", 50, 1);
    assert_eq!(got, vec![0x77u16]);
}

#[test]
fn fresh_store_reads_zeros_and_creates_nothing() {
    let dm = DeviceMap::new();
    assert!(dm.is_empty());
    assert_eq!(dm.get_words("D", 7, 4), vec![0u16; 4]);
    assert_eq!(dm.get_words("0xA8", 0, 0), Vec::<u16>::new());
    assert!(!dm.has_key("D"));
    assert!(dm.is_empty());
    assert_eq!(dm.read_at(DeviceKey::from_code(0xA8), usize::MAX, 3), vec![0u16; 3]);
}

#[test]
fn write_grows_area_and_zero_fills_the_gap() {
    let mut dm = DeviceMap::new();
    dm.set_words("D", 3, &[7, 8]);
    assert!(dm.has_key("D"));
    assert_eq!(dm.get_words("D", 0, 7), vec![0, 0, 0, 7, 8, 0, 0]);
    // a second write inside the area leaves its neighbours
    dm.set_words("D", 1, &[5]);
    assert_eq!(dm.get_words("D", 0, 5), vec![0, 5, 0, 7, 8]);
    // other areas are untouched
    assert!(!dm.has_key("W"));
    assert_eq!(dm.get_words("W", 3, 2), vec![0, 0]);
}

#[test]
fn read_past_a_write_returns_words_then_zeros() {
    let mut dm = DeviceMap::new();
    dm.set_words("W", 10, &[1, 2, 3]);
    assert_eq!(dm.get_words("W", 10, 5), vec![1, 2, 3, 0, 0]);
}

#[test]
fn symbol_and_canonical_key_are_interchangeable() {
    let mut dm = DeviceMap::new();
    dm.set_words("D", 4, &[0xBEEF]);
    assert_eq!(dm.get_words("0xA8", 4, 1), vec![0xBEEF]);
    assert_eq!(dm.get_words("168", 4, 1), vec![0xBEEF]);
    dm.set_words("0xA8", 5, &[0xCAFE]);
    assert_eq!(dm.get_words("D", 4, 2), vec![0xBEEF, 0xCAFE]);
    assert!(dm.has_key("0XA8"));
}

#[test]
fn clear_forgets_every_area() {
    let mut dm = DeviceMap::new();
    dm.set_words("D", 0, &[1]);
    dm.set_words("M", 0, &[1]);
    assert!(!dm.is_empty());
    dm.clear();
    assert!(dm.is_empty());
    assert!(!dm.has_key("D"));
    assert_eq!(dm.get_words("D", 0, 1), vec![0]);
}

#[test]
fn device_key_from_code_is_a_word_key() {
    let key = DeviceKey::from_code(0x90);
    assert_eq!(key.code(), 0x90);
    assert_eq!(key.unit, DeviceUnit::Word);
    assert_eq!(key, DeviceKey { code: 0x90, unit: DeviceUnit::Word });
}

#[test]
fn normalize_gives_canonical_key_and_effective_address() {
    assert_eq!(normalize_key_addr("D", 5), ("0xA8".to_string(), 5));
    assert_eq!(normalize_key_addr("D100", 0), ("0xA8".to_string(), 100));
    assert_eq!(normalize_key_addr("D100", 7), ("0xA8".to_string(), 7));
    assert_eq!(normalize_key_addr("W1F", 0), ("0xB4".to_string(), 0x1F));
    assert_eq!(normalize_key_addr("0x9c", 3), ("0x9C".to_string(), 3));
    assert_eq!(normalize_key_addr("0X0a", 3), ("0x0A".to_string(), 3));
    assert_eq!(normalize_key_addr("144", 1), ("0x90".to_string(), 1));
    assert_eq!(normalize_key_addr("+7", 1), ("0x07".to_string(), 1));
    // neither symbol nor literal: code 0
    assert_eq!(normalize_key_addr("", 9), ("0x00".to_string(), 9));
    assert_eq!(normalize_key_addr("0x100", 9), ("0x00".to_string(), 9));
    assert_eq!(normalize_key_addr("0xZZ", 9), ("0x00".to_string(), 9));
    assert_eq!(normalize_key_addr("256", 9), ("0x00".to_string(), 9));
    assert_eq!(normalize_key_addr("-1", 9), ("0x00".to_string(), 9));
    assert_eq!(resolve_key("M", 2), (0x90, 2));
}

#[test]
fn resolution_follows_the_order_of_the_tables() {
    let none = KeyLookup { override_code: None, combined: None, symbol: None };
    assert_eq!(resolve_with(&none, "0x2A", 4), (0x2A, 4));
    let by_symbol = KeyLookup { override_code: None, combined: None, symbol: Some(0x90) };
    assert_eq!(resolve_with(&by_symbol, "0x2A", 4), (0x90, 4));
    let combined = KeyLookup { override_code: None, combined: Some((0xA8, 100)), symbol: Some(1) };
    assert_eq!(resolve_with(&combined, "D100", 0), (0xA8, 100));
    assert_eq!(resolve_with(&combined, "D100", 4), (0xA8, 4));
    let overridden =
        KeyLookup { override_code: Some(0x33), combined: Some((0xA8, 100)), symbol: Some(1) };
    assert_eq!(resolve_with(&overridden, "D100", 0), (0x33, 0));
    // an override whose code does not fit in a byte is passed over
    let too_wide =
        KeyLookup { override_code: Some(0x100), combined: Some((0xA8, 100)), symbol: Some(1) };
    assert_eq!(resolve_with(&too_wide, "D100", 0), (0xA8, 100));
}

#[test]
fn lookup_asks_no_further_than_needed() {
    let combined = lookup_key("D100");
    assert_eq!(combined.override_code, None);
    assert_eq!(combined.combined, Some((0xA8, 100)));
    assert_eq!(combined.symbol, None);
    let symbol = lookup_key("D");
    assert_eq!(symbol.combined, None);
    assert_eq!(symbol.symbol, Some(0xA8));
    let literal = lookup_key("0xA8");
    assert_eq!(literal.combined, None);
    assert_eq!(literal.symbol, None);
}

#[test]
fn canonical_key_is_two_upper_case_hex_digits() {
    assert_eq!(canonical_key_text(0), "0x00");
    assert_eq!(canonical_key_text(0xA8), "0xA8");
    assert_eq!(canonical_key_text(0x9C), "0x9C");
    assert_eq!(canonical_key_text(0xFF), "0xFF");
    for code in 0..=255u8 {
        let text = canonical_key_text(code);
        assert_eq!(text, format!("0x{:02X}", code));
        assert_eq!(literal_key_code(&chars(&text)), code);
    }
}

#[test]
fn literals_are_read_like_unsigned_numbers() {
    assert_eq!(parse_number_text(&chars("255"), false, 255), Some(255));
    assert_eq!(parse_number_text(&chars("256"), false, 255), None);
    assert_eq!(parse_number_text(&chars("000255"), false, 255), Some(255));
    assert_eq!(parse_number_text(&chars("+12"), false, 255), Some(12));
    assert_eq!(parse_number_text(&chars("+"), false, 255), None);
    assert_eq!(parse_number_text(&chars("++1"), false, 255), None);
    assert_eq!(parse_number_text(&chars("-0"), false, 255), None);
    assert_eq!(parse_number_text(&chars(""), false, 255), None);
    assert_eq!(parse_number_text(&chars(" 1"), false, 255), None);
    assert_eq!(parse_number_text(&chars("1a"), false, 255), None);
    assert_eq!(parse_number_text(&chars("1a"), true, 255), Some(0x1A));
    assert_eq!(parse_number_text(&chars("fF"), true, 255), Some(255));
    assert_eq!(parse_number_text(&chars("g"), true, 255), None);
    assert_eq!(
        parse_number_text(&chars("18446744073709551615"), false, u64::MAX),
        Some(u64::MAX)
    );
    assert_eq!(parse_number_text(&chars("18446744073709551616"), false, u64::MAX), None);
    assert_eq!(parse_number_text(&chars("ffffffffffffffff"), true, u64::MAX), Some(u64::MAX));
    assert_eq!(parse_number_text(&chars("10000000000000000"), true, u64::MAX), None);
}

#[test]
fn assignment_text_is_read_line_by_line() {
    let seeds = parse_assignment(ASSIGNMENT);
    let got: Vec<(String, usize)> = seeds.iter().map(|s| (s.key.clone(), s.count)).collect();
    let expected: Vec<(String, usize)> = vec![
        ("X".to_string(), 8192),
        ("Y".to_string(), 8192),
        ("M".to_string(), 8192),
        ("B".to_string(), 8192),
        ("D".to_string(), 12288),
        ("W".to_string(), 8192),
        ("Z".to_string(), 20),
        ("TS".to_string(), 2048),
        ("TN".to_string(), 2048),
        ("TC".to_string(), 2048),
        ("CTS".to_string(), 1024),
        ("CTN".to_string(), 1024),
        ("CTC".to_string(), 1024),
        ("SD".to_string(), 2048),
    ];
    assert_eq!(got, expected);
}

#[test]
fn assignment_edge_cases() {
    let keys = |text: &str| -> Vec<(String, usize)> {
        parse_assignment(text).iter().map(|s| (s.key.clone(), s.count)).collect()
    };
    // nothing counts before the section header
    assert_eq!(keys("D = 4\n"), vec![]);
    assert_eq!(keys(""), vec![]);
    // white space, carriage returns and a missing final newline
    assert_eq!(keys("  [devices]  \r\n\t D\t=\t4 \r\n W=2k"), vec![
        ("D".to_string(), 4),
        ("W".to_string(), 2048)
    ]);
    // the section name must match exactly
    assert_eq!(keys("[Devices]\nD = 4\n"), vec![]);
    assert_eq!(keys("[devices]\n[x]\nD = 4\n[devices]\nW = 1\n"), vec![("W".to_string(), 1)]);
    // symbols are matched whatever their case; the key is kept as written
    assert_eq!(keys("[devices]\nlt = 1\nzr = 5\nd = 2\n"), vec![
        ("LTS".to_string(), 1),
        ("LTN".to_string(), 1),
        ("LTC".to_string(), 1),
        ("d".to_string(), 2)
    ]);
    assert_eq!(keys("[devices]\nST = 1\nLST = 1\nLC = 1\n"), vec![
        ("STS".to_string(), 1),
        ("STN".to_string(), 1),
        ("STC".to_string(), 1),
        ("LSTS".to_string(), 1),
        ("LSTN".to_string(), 1),
        ("LSTC".to_string(), 1),
        ("LCTS".to_string(), 1),
        ("LCTN".to_string(), 1),
        ("LCTC".to_string(), 1)
    ]);
    // values: a space before K, quotes, and what is no number
    assert_eq!(keys("[devices]\nD = 3 K\n"), vec![("D".to_string(), 3072)]);
    assert_eq!(keys("[devices]\nD = \"3\"\n"), vec![("D".to_string(), 3)]);
    assert_eq!(keys("[devices]\nD = 3 # points\n"), vec![]);
    assert_eq!(keys("[devices]\nD = K\nW = \nB\nM = -1\nX = 1.5\n"), vec![]);
    assert_eq!(keys("[devices]\nD = 0K\nW = 00\n"), vec![]);
    assert_eq!(keys("[devices]\nD = 99999999999999999999999\n"), vec![]);
    // a comment line inside the section
    assert_eq!(keys("[devices]\n# D = 1\nW = 1\n"), vec![("W".to_string(), 1)]);
}

#[test]
fn snapshot_entries_restore_the_store() {
    let mut dm = DeviceMap::new();
    dm.set_words("D", 1, &[5, 6]);
    dm.set_words("M", 0, &[1]);
    let entries = dm.entries();
    assert_eq!(entries, vec![(0x90u8, vec![1u16]), (0xA8u8, vec![0u16, 5, 6])]);
    let back = DeviceMap::from_entries(&entries);
    assert_eq!(back.entries(), entries);
    assert_eq!(back.get_words("D", 0, 4), vec![0, 5, 6, 0]);
    assert!(DeviceMap::from_entries(&Vec::new()).is_empty());
    // of two areas with one code the later counts
    let twice = DeviceMap::from_entries(&vec![(1u8, vec![1u16]), (1u8, vec![2u16, 3])]);
    assert_eq!(twice.entries(), vec![(1u8, vec![2u16, 3])]);
}

#[test]
fn server_is_seeded_only_without_a_snapshot() {
    let seeded = MockServer::new_with_assignment(None, Some("[devices]\nD = 4\n"));
    assert!(seeded.store.has_key("D"));
    assert_eq!(seeded.get_words("D", 0, 4), vec![0u16; 4]);
    let empty = MockServer::new_with_assignment(None, None);
    assert!(empty.store.is_empty());
    let mut kept = DeviceMap::new();
    kept.set_words("W", 0, &[9]);
    let restored = MockServer::new_with_assignment(Some(kept), Some("[devices]\nD = 4\n"));
    assert!(!restored.store.has_key("D"));
    assert_eq!(restored.get_words("W", 0, 1), vec![9]);
    let from_empty =
        MockServer::new_with_assignment(Some(DeviceMap::new()), Some("[devices]\nD = 4\n"));
    assert!(from_empty.store.has_key("D"));
}

#[test]
fn registered_override_goes_first() {
    let overrides = melsec_mc::device_registry::DeviceRegistry::from_str(
        "[[device]]\nsymbol = \"D100\"\ncode = 0x33\ncategory = \"Word\"\n\n\
         [[device]]\nsymbol = \"WIDE\"\ncode = 0x1A8\ncategory = \"Word\"\n",
    )
    .expect("device overrides");
    overrides.register_overrides().expect("register overrides");
    // the override decides before the key is read as symbol and address
    assert_eq!(normalize_key_addr("D100", 0), ("0x33".to_string(), 0));
    let lookup = lookup_key("D100");
    assert_eq!(lookup.override_code, Some(0x33));
    assert_eq!(lookup.combined, None);
    // a code that does not fit in a byte is passed over
    assert_eq!(lookup_key("WIDE").override_code, Some(0x1A8));
    assert_eq!(normalize_key_addr("WIDE", 2), ("0x00".to_string(), 2));
    assert_eq!(normalize_key_addr("D200", 0), ("0xA8".to_string(), 200));
    let mut dm = DeviceMap::new();
    dm.set_words("D100", 1, &[5]);
    assert_eq!(dm.get_words("0x33", 1, 1), vec![5]);
    assert!(!dm.has_key("D"));
}

#[test]
fn areas_are_addressed_by_code() {
    let mut dm = DeviceMap::new();
    let key = DeviceKey::from_code(0x42);
    assert!(!dm.contains(key));
    dm.write_at(key, 2, &[]);
    // a write of no words creates the area and grows it to the address
    assert!(dm.contains(key));
    assert_eq!(dm.entries(), vec![(0x42u8, vec![0u16, 0])]);
    dm.write_at(key, 1, &[7, 8, 9]);
    assert_eq!(dm.read_at(key, 0, 5), vec![0, 7, 8, 9, 0]);
    assert_eq!(dm.read_at(DeviceKey::from_code(0x43), 0, 2), vec![0, 0]);
    assert!(!dm.contains(DeviceKey::from_code(0x43)));
    assert!(DeviceMap::default().is_empty());
}

#[test]
fn seeds_are_written_as_zeros() {
    let mut dm = DeviceMap::new();
    dm.set_words("D", 0, &[5, 6, 7]);
    dm.seed(&vec![
        Seed { key: "D".to_string(), count: 2 },
        Seed { key: "W".to_string(), count: 3 },
        Seed { key: "0x07".to_string(), count: 1 },
    ]);
    assert_eq!(dm.get_words("D", 0, 3), vec![0, 0, 7]);
    assert_eq!(dm.entries().len(), 3);
    assert_eq!(dm.get_words("W", 0, 4), vec![0, 0, 0, 0]);
    assert!(dm.has_key("7"));
}

fn generator(seed: u64) -> impl FnMut() -> u64 {
    let mut state = seed;
    move || {
        state ^= state << 13;
        state ^= state >> 7;
        state ^= state << 17;
        state
    }
}

#[test]
fn literals_agree_with_the_standard_parsers() {
    let mut next = generator(0x9E37_79B9_7F4A_7C15);
    let alphabet: Vec<char> = "0123456789abcdefABCDEF+-xg 0012".chars().collect();
    for _ in 0..20000 {
        let len = (next() % 6) as usize;
        let text: String =
            (0..len).map(|_| alphabet[(next() % alphabet.len() as u64) as usize]).collect();
        let symbols = chars(&text);
        assert_eq!(
            parse_number_text(&symbols, false, 255),
            text.parse::<u8>().ok().map(u64::from),
            "decimal {:?}",
            text
        );
        assert_eq!(
            parse_number_text(&symbols, true, 255),
            u8::from_str_radix(&text, 16).ok().map(u64::from),
            "hex {:?}",
            text
        );
        assert_eq!(
            parse_number_text(&symbols, false, u64::MAX),
            text.parse::<u64>().ok(),
            "decimal {:?}",
            text
        );
        let expected = if text.starts_with("0x") || text.starts_with("0X") {
            u8::from_str_radix(&text[2..], 16).unwrap_or(0)
        } else {
            text.parse::<u8>().unwrap_or(0)
        };
        assert_eq!(literal_key_code(&symbols), expected, "literal {:?}", text);
    }
}

/// The seeds of an assignment text, read with the text operations of the
/// standard library.
fn expected_seeds(text: &str) -> Vec<(String, usize)> {
    let mut seeds: Vec<(String, usize)> = Vec::new();
    let mut in_devices = false;
    for line in text.lines() {
        let line = line.trim();
        if line.is_empty() || line.starts_with('#') {
            continue;
        }
        if line.starts_with('[') {
            in_devices = line == "[devices]";
            continue;
        }
        if !in_devices {
            continue;
        }
        if let Some(eq_pos) = line.find('=') {
            let key = line[..eq_pos].trim().trim_matches('"');
            let mut val = line[eq_pos + 1..].trim();
            if val.starts_with('"') && val.ends_with('"') && val.len() >= 2 {
                val = &val[1..val.len() - 1];
            }
            let count = match val.chars().last() {
                None => None,
                Some('K') | Some('k') => val[..val.len() - 1]
                    .trim()
                    .parse::<usize>()
                    .ok()
                    .and_then(|n| n.checked_mul(1024)),
                Some(_) => val.parse::<usize>().ok(),
            };
            let count = match count {
                Some(n) if n > 0 && n <= usize::MAX - 0xFF_FFFF => n,
                _ => continue,
            };
            let key_upper = key.to_ascii_uppercase();
            if key_upper == "ZR" {
                continue;
            }
            let targets: Vec<&str> = match key_upper.as_str() {
                "T" => vec!["TS", "TN", "TC"],
                "LT" => vec!["LTS", "LTN", "LTC"],
                "ST" => vec!["STS", "STN", "STC"],
                "LST" => vec!["LSTS", "LSTN", "LSTC"],
                "C" => vec!["CTS", "CTN", "CTC"],
                "LC" => vec!["LCTS", "LCTN", "LCTC"],
                _ => vec![key],
            };
            for target in targets {
                seeds.push((target.to_string(), count));
            }
        }
    }
    seeds
}

#[test]
fn assignment_agrees_with_the_standard_text_operations() {
    let mut next = generator(0xD1B5_4A32_D192_ED03);
    let pieces = [
        "[devices]", "[other]", "[", "]", "#", "=", "\"", "K", "k", " ", "\t", "\r", "\n", "\n",
        "D", "T", "LT", "ST", "LST", "C", "LC", "ZR", "zr", "t", "x", "0", "1", "2", "9", "12",
        "+", "-", "\u{a0}", "\u{3000}", "é", "18446744073709551615",
    ];
    for _ in 0..20000 {
        let count = (next() % 14) as usize;
        let mut text = String::new();
        if next() % 4 != 0 {
            text.push_str("[devices]\n");
        }
        for _ in 0..count {
            text.push_str(pieces[(next() % pieces.len() as u64) as usize]);
        }
        let got: Vec<(String, usize)> =
            parse_assignment(&text).iter().map(|s| (s.key.clone(), s.count)).collect();
        assert_eq!(got, expected_seeds(&text), "seeds of {:?}", text);
    }
    assert_eq!(expected_seeds(ASSIGNMENT).len(), 14);
}
