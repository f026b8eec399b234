use codepage::chars::CharSet;
use codepage::codepage::Codepage;
use codepage::scan::{is_pair, read_pair, scan, validate, KeyMode};
use codepage::select::select;
use codepage::shift_jis::{
    decoded_unit, encodable_in_shift_jis, mark_encodable, shift_jis, shift_jis_code_to_char, ShiftJis,
};
use std::collections::HashSet;

/// Substitute characters: the JIS kanji a Shift-JIS patch falls back on for
/// text it cannot store.
fn substitutes(tables: &ShiftJis, count: usize) -> Vec<char> {
    (0x4E00u32..=0x9FFF)
        .filter_map(char::from_u32)
        .filter(|c| encodable_in_shift_jis(tables, *c))
        .take(count)
        .collect()
}

/// Target characters: the simplified text a patch wants to show, i.e. what
/// Shift-JIS cannot represent.
fn targets(tables: &ShiftJis, count: usize) -> Vec<char> {
    (0x4E00u32..=0x9FFF)
        .filter_map(char::from_u32)
        .filter(|c| !encodable_in_shift_jis(tables, *c))
        .take(count)
        .collect()
}

fn pairs(key: &[char], target: &[char]) -> Vec<(u16, u16)> {
    key.iter()
        .copied()
        .zip(target.iter().copied())
        .map(|(k, v)| (k as u32 as u16, v as u32 as u16))
        .collect()
}

fn encoded(pairs: &[(u16, u16)]) -> Vec<u8> {
    let mut bytes = Vec::new();
    for &(key, target) in pairs {
        bytes.extend_from_slice(&key.to_le_bytes());
        bytes.extend_from_slice(&target.to_le_bytes());
    }
    bytes
}

fn table(tables: &ShiftJis, count: usize) -> Codepage {
    validate(
        tables,
        pairs(&substitutes(tables, count), &targets(tables, count)),
        KeyMode::Unicode,
    )
    .expect("handed a well-formed table")
}

fn char_set(chars: &[char]) -> CharSet {
    let mut set = CharSet::new();
    for c in chars {
        set.insert(*c);
    }
    set
}

/// A table is found even when the array does not start on a 4-byte boundary,
/// which a 4-byte step would walk straight past.
#[test]
fn finds_table_at_an_unaligned_offset() {
    let tables = shift_jis();
    let pairs = pairs(&substitutes(&tables, 64), &targets(&tables, 64));
    let mut bytes = vec![0u8; 4092];
    bytes.extend_from_slice(&encoded(&pairs));
    bytes.extend_from_slice(&[0u8; 512]);
    let found = scan(&tables, &bytes);
    assert_eq!(found.len(), 1);
    assert_eq!(found[0].pairs().len(), 64);
}

/// Runs below `MIN_TABLE_ENTRIES` are noise, not a table.
#[test]
fn rejects_runs_below_the_minimum_length() {
    let tables = shift_jis();
    let pairs = pairs(&substitutes(&tables, 8), &targets(&tables, 8));
    let mut bytes = vec![0u8; 512];
    bytes.extend_from_slice(&encoded(&pairs));
    bytes.extend_from_slice(&[0u8; 512]);
    assert!(scan(&tables, &bytes).is_empty());
}

/// A long run whose targets are all representable in Shift-JIS is not a
/// localization table: the real thing exists because they are not. Big
/// unrelated binaries do contain runs shaped like this.
#[test]
fn rejects_tables_of_shift_jis_targets() {
    let tables = shift_jis();
    let both = substitutes(&tables, 64);
    let mut bytes = vec![0u8; 512];
    bytes.extend_from_slice(&encoded(&pairs(&both, &both)));
    bytes.extend_from_slice(&[0u8; 512]);
    assert!(scan(&tables, &bytes).is_empty());
}

#[test]
fn finds_nothing_in_noise() {
    let mut seed = 0x1234_5678u32;
    let noise: Vec<u8> = (0..64 * 1024)
        .map(|_| {
            seed = seed.wrapping_mul(1_664_525).wrapping_add(1_013_904_223);
            (seed >> 24) as u8
        })
        .collect();
    assert!(scan(&shift_jis(), &noise).is_empty());
}

/// The script decides which candidate is the release's table: a look-alike run
/// must lose to one matching the text.
#[test]
fn selection_is_confirmed_by_the_script_text() {
    let tables = shift_jis();
    let text = char_set(&substitutes(&tables, 64));
    assert!(select(&[table(&tables, 64)], &text).is_some());
    // Nothing read from the script means nothing to confirm against.
    assert!(select(&[table(&tables, 64)], &CharSet::new()).is_none());

    let matching = table(&tables, 64);
    let unrelated = table(&tables, 32);
    let picked = select(&[unrelated, matching.clone()], &text).expect("table matches");
    assert_eq!(picked.pairs().len(), matching.pairs().len());

    // A table that only mostly lines up is noise, not the release's table:
    // look-alike runs in large binaries reach the high 80s.
    let mostly = char_set(&substitutes(&tables, 56));
    assert!(select(&[table(&tables, 64)], &mostly).is_none());
}

/// Tables that store Shift-JIS code units instead of characters are normalized
/// to the characters they decode to.
#[test]
fn normalizes_shift_jis_code_unit_keys() {
    let tables = shift_jis();
    let mut codes = Vec::new();
    let mut seen = HashSet::new();
    'outer: for lead in 0x81u16..=0x9F {
        for trail in 0x40u16..=0xFC {
            let code = (lead << 8) | trail;
            let Some(c) = shift_jis_code_to_char(&tables, code) else {
                continue;
            };
            if seen.insert(c) {
                codes.push((code, c));
            }
            if codes.len() == 64 {
                break 'outer;
            }
        }
    }
    assert_eq!(codes.len(), 64);

    let pairs: Vec<(u16, u16)> = codes
        .iter()
        .zip(targets(&tables, 64))
        .map(|(&(code, _), target)| (code, target as u32 as u16))
        .collect();
    let found = scan(&tables, &encoded(&pairs));
    let table = found
        .iter()
        .find(|t| t.pairs().len() == 64)
        .expect("table found");
    let keys: Vec<char> = table
        .pairs()
        .iter()
        .map(|&(key, _)| char::from_u32(key as u32).expect("char"))
        .collect();
    for c in codes.iter().map(|&(_, c)| c) {
        assert!(keys.contains(&c), "{c:?} missing from normalized keys");
    }
}

#[test]
fn shift_jis_answers_match_the_encoding() {
    let tables = shift_jis();
    assert!(encodable_in_shift_jis(&tables, 'A'));
    assert!(encodable_in_shift_jis(&tables, '遵'));
    assert!(encodable_in_shift_jis(&tables, '｡'));
    assert!(!encodable_in_shift_jis(&tables, '违'));
    assert!(!encodable_in_shift_jis(&tables, '\u{1F600}'));
    // U+3000 is the first code unit of the first row, 亜 of the kanji rows.
    assert_eq!(shift_jis_code_to_char(&tables, 0x8140), Some('\u{3000}'));
    assert_eq!(shift_jis_code_to_char(&tables, 0x889F), Some('亜'));
    assert_eq!(shift_jis_code_to_char(&tables, 0x829F), Some('ぁ'));
    assert_eq!(shift_jis_code_to_char(&tables, 0x817F), None);
    assert_eq!(shift_jis_code_to_char(&tables, 0x0041), None);
    assert_eq!(shift_jis_code_to_char(&tables, 0xF040), None);
    assert_eq!(shift_jis_code_to_char(&tables, 0xFFFF), None);
}

#[test]
fn decoded_unit_wants_one_clean_character() {
    assert_eq!(decoded_unit("亜", false), Some('亜'));
    assert_eq!(decoded_unit("亜", true), None);
    assert_eq!(decoded_unit("", false), None);
    assert_eq!(decoded_unit("亜亜", false), None);
    assert_eq!(decoded_unit("\0", false), None);
}

#[test]
fn reads_records_in_little_endian() {
    let bytes = [0xFF, 0x34, 0x12, 0x78, 0x56];
    assert_eq!(read_pair(&bytes, 1), (0x1234, 0x5678));
    assert_eq!(read_pair(&bytes, 0), (0x34FF, 0x7812));
}

#[test]
fn tells_records_by_key_and_target() {
    let tables = shift_jis();
    let possible = |key: u16, target: u16, mode: KeyMode| {
        is_pair(&tables, &encoded(&[(key, target)]), 0, mode)
    };
    // 亜 as a character, and as its code unit.
    assert!(possible(0x4E9C, 0x8FDD, KeyMode::Unicode));
    assert!(!possible(0x4E9C, 0x8FDD, KeyMode::ShiftJis));
    assert!(possible(0x889F, 0x8FDD, KeyMode::ShiftJis));
    assert!(possible(0x889F, 0xF8F2, KeyMode::ShiftJis));
    // 违 cannot come out of a Shift-JIS decode, and Latin is out of range.
    assert!(!possible(0x8FDD, 0x4E9C, KeyMode::Unicode));
    assert!(!possible(0x0041, 0x4E9C, KeyMode::Unicode));
    for target in [0x0000, 0x009F, 0xD800, 0xDFFF, 0xFFFD] {
        assert!(!possible(0x4E9C, target, KeyMode::Unicode));
    }
    for target in [0x00A0, 0xD7FF, 0xE000, 0xFFFC, 0xFFFE, 0xFFFF] {
        assert!(possible(0x4E9C, target, KeyMode::Unicode));
    }
}

#[test]
fn validation_gates_stand_where_they_are_documented() {
    let tables = shift_jis();
    let keys = substitutes(&tables, 100);
    let shown = targets(&tables, 100);
    assert!(validate(&tables, pairs(&keys[..31], &shown), KeyMode::Unicode).is_none());
    assert!(validate(&tables, pairs(&keys[..32], &shown), KeyMode::Unicode).is_some());

    // Thirty of a hundred targets beyond Shift-JIS are enough, one less is not.
    let mut mixed: Vec<char> = keys.clone();
    mixed[..30].copy_from_slice(&shown[..30]);
    assert!(validate(&tables, pairs(&keys, &mixed), KeyMode::Unicode).is_some());
    mixed[29] = keys[29];
    assert!(validate(&tables, pairs(&keys, &mixed), KeyMode::Unicode).is_none());

    // A key that occurs twice, or a half that is no character, is no table.
    let mut twice = pairs(&keys, &shown);
    twice[99].0 = twice[0].0;
    assert!(validate(&tables, twice, KeyMode::Unicode).is_none());
    let mut surrogate_key = pairs(&keys, &shown);
    surrogate_key[5].0 = 0xD800;
    assert!(validate(&tables, surrogate_key, KeyMode::Unicode).is_none());
    let mut surrogate_target = pairs(&keys, &shown);
    surrogate_target[5].1 = 0xDC00;
    assert!(validate(&tables, surrogate_target, KeyMode::Unicode).is_none());
    let unused_codes = pairs(&keys, &shown);
    assert!(validate(&tables, unused_codes, KeyMode::ShiftJis).is_none());
}

#[test]
fn table_is_sorted_by_substitute() {
    let tables = shift_jis();
    let mut given = pairs(&substitutes(&tables, 40), &targets(&tables, 40));
    let sorted = given.clone();
    given.reverse();
    given.swap(3, 17);
    let table = validate(&tables, given, KeyMode::Unicode).expect("table");
    assert_eq!(*table.pairs(), sorted);
    for (key, target) in sorted {
        let (key, target) = (char::from_u32(key as u32), char::from_u32(target as u32));
        assert_eq!(table.lookup(key.expect("char")), target);
    }
    assert_eq!(table.lookup('A'), None);
    assert_eq!(table.lookup('\u{1F600}'), None);
}

/// The tail of a rejected run can be the head of the real table.
#[test]
fn rejected_run_does_not_swallow_the_table() {
    let tables = shift_jis();
    let keys = substitutes(&tables, 65);
    let shown = targets(&tables, 65);
    let mut run = pairs(&keys, &shown);
    // The first record repeats a key, so only the run behind it is a table.
    run[0].0 = run[40].0;
    let found = scan(&tables, &encoded(&run));
    assert_eq!(found.len(), 1);
    assert_eq!(found[0].pairs().len(), 64);
}

#[test]
fn finds_both_of_two_tables() {
    let tables = shift_jis();
    let keys = substitutes(&tables, 96);
    let shown = targets(&tables, 96);
    let mut bytes = vec![0u8; 10];
    bytes.extend_from_slice(&encoded(&pairs(&keys[..40], &shown[..40])));
    bytes.extend_from_slice(&[0u8; 6]);
    bytes.extend_from_slice(&encoded(&pairs(&keys[40..], &shown[40..])));
    let found = scan(&tables, &bytes);
    assert_eq!(found.len(), 2);
    assert_eq!(found[0].pairs().len(), 40);
    assert_eq!(found[1].pairs().len(), 56);
    assert_eq!(found[1].lookup(keys[40]), Some(shown[40]));
    assert_eq!(found[1].lookup(keys[39]), None);
}

#[test]
fn tightest_of_equal_tables_wins() {
    let tables = shift_jis();
    let loose = table(&tables, 66);
    let tight = table(&tables, 64);
    let text = char_set(&substitutes(&tables, 64));
    let picked = select(&[loose.clone(), tight.clone()], &text).expect("table");
    assert_eq!(picked.pairs().len(), 64);
    let picked = select(&[tight, loose], &text).expect("table");
    assert_eq!(picked.pairs().len(), 64);
    assert!(select(&[], &text).is_none());
}

#[test]
fn nine_of_ten_keys_confirm_a_table() {
    let tables = shift_jis();
    let table = table(&tables, 40);
    let keys = substitutes(&tables, 40);
    assert!(select(&[table.clone()], &char_set(&keys[..36])).is_some());
    assert!(select(&[table.clone()], &char_set(&keys[..35])).is_none());
    // More text keeps a table confirmed.
    assert!(select(&[table], &char_set(&substitutes(&tables, 200))).is_some());
}

#[test]
fn bitmap_takes_in_clean_characters_only() {
    let mut words = vec![0u64; 0x400];
    mark_encodable(&mut words, 'A', false);
    mark_encodable(&mut words, 'B', true);
    mark_encodable(&mut words, '\u{FFFF}', false);
    assert_eq!(words[1], 1 << 1);
    assert_eq!(words[0x3FF], 1 << 63);
    mark_encodable(&mut words, 'A', true);
    assert_eq!(words.iter().map(|word| word.count_ones()).sum::<u32>(), 2);
}

/// Keys stored as code units make the same table as the characters themselves.
#[test]
fn key_form_does_not_matter() {
    let tables = shift_jis();
    let codes: Vec<u16> = (0x889Fu16..=0x88FC).take(40).collect();
    let keys: Vec<char> = codes
        .iter()
        .map(|code| shift_jis_code_to_char(&tables, *code).expect("used code unit"))
        .collect();
    let shown = targets(&tables, 40);
    let by_char = validate(&tables, pairs(&keys, &shown), KeyMode::Unicode).expect("table");
    let stored: Vec<(u16, u16)> = codes
        .iter()
        .zip(&shown)
        .map(|(code, target)| (*code, *target as u32 as u16))
        .collect();
    let by_code = validate(&tables, stored, KeyMode::ShiftJis).expect("table");
    assert_eq!(by_char.pairs(), by_code.pairs());
}

#[test]
fn candidate_entries_keep_to_their_ranges() {
    let tables = shift_jis();
    let mut bytes = encoded(&pairs(&substitutes(&tables, 48), &targets(&tables, 48)));
    bytes.insert(0, 0);
    bytes.insert(0, 0);
    let found = scan(&tables, &bytes);
    assert_eq!(found.len(), 1);
    assert!(found[0].pairs().len() >= 32);
    for (key, target) in found[0].pairs() {
        assert!((0x3000..=0x9FFF).contains(key));
        assert!(*target >= 0xA0 && *target != 0xFFFD);
    }
    // At an odd offset no record is looked for.
    bytes.insert(0, 0);
    assert!(scan(&tables, &bytes).is_empty());
}

/// A code unit that decodes stands for one character that encodes again.
#[test]
fn decoded_code_units_encode_again() {
    let tables = shift_jis();
    let mut used = 0;
    for code in 0..=0xFFFFu16 {
        let unit = code.to_be_bytes();
        let double = matches!(unit[0], 0x81..=0x9F | 0xE0..=0xEF)
            && matches!(unit[1], 0x40..=0x7E | 0x80..=0xFC);
        let (text, _, had_errors) = encoding_rs::SHIFT_JIS.decode(&unit);
        match shift_jis_code_to_char(&tables, code) {
            Some(c) => {
                used += 1;
                assert!(double && !had_errors);
                assert_eq!(text.chars().collect::<Vec<char>>(), vec![c]);
                assert!(c != '\0' && (c as u32) <= 0xFFFF);
                assert!(encodable_in_shift_jis(&tables, c));
            }
            None => assert!(!double || had_errors),
        }
    }
    assert!(used > 6000);
}

/// Every key of a found table is a character of Shift-JIS, in either key form.
#[test]
fn keys_of_found_tables_are_representable() {
    let tables = shift_jis();
    let shown = targets(&tables, 40);
    let stored: Vec<(u16, u16)> = (0x889Fu16..=0x88FC)
        .zip(&shown)
        .map(|(code, target)| (code, *target as u32 as u16))
        .collect();
    let found = scan(&tables, &encoded(&stored));
    assert!(!found.is_empty());
    for (key, _) in found.iter().flat_map(|table| table.pairs()) {
        let key = char::from_u32(*key as u32).expect("char");
        assert!(encodable_in_shift_jis(&tables, key));
    }
}

#[test]
fn tables_are_the_same_each_time() {
    let first = shift_jis();
    let second = shift_jis();
    assert_eq!(format!("{first:?}"), format!("{second:?}"));
}

#[test]
fn tables_hold_what_the_encoding_does() {
    let tables = shift_jis();
    for c in (0u32..=0xFFFF).filter_map(char::from_u32) {
        let (_, _, had_errors) = encoding_rs::SHIFT_JIS.encode(c.encode_utf8(&mut [0; 4]));
        assert_eq!(encodable_in_shift_jis(&tables, c), !had_errors);
        if c.is_ascii() {
            assert!(encodable_in_shift_jis(&tables, c));
        }
    }
    for code in 0..=0xFFFFu16 {
        let unit = code.to_be_bytes();
        let [lead, trail] = unit;
        let double_byte = matches!(lead, 0x81..=0x9F | 0xE0..=0xEF)
            && matches!(trail, 0x40..=0x7E | 0x80..=0xFC);
        let (text, _, had_errors) = encoding_rs::SHIFT_JIS.decode(&unit);
        let expected = if double_byte && !had_errors { text.chars().next() } else { None };
        assert_eq!(shift_jis_code_to_char(&tables, code), expected);
    }
}
