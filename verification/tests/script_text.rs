use codepage::chars::CharSet;
use codepage::game_dir::{
    begin_scan_dir, is_engine_binary, load_from_game_dir, scan_dir, DirAction, DirEvent, ScanCache,
    MAX_BINARY_SIZE,
};
use codepage::script::{pushed_string, script_chars, MAX_PUSHSTRING_LEN, OPCODE_PUSH_STRING};
use codepage::shift_jis::{encodable_in_shift_jis, shift_jis};

fn push_string(script: &mut Vec<u8>, text: &[u8]) {
    script.push(OPCODE_PUSH_STRING);
    script.push(text.len() as u8 + 1);
    script.extend_from_slice(text);
    script.push(0);
}

#[test]
fn collects_characters_from_pushstring_operands() {
    let mut script = Vec::new();
    for line in ["徼戍", "諍禳"] {
        let (bytes, _, _) = encoding_rs::SHIFT_JIS.encode(line);
        script.push(OPCODE_PUSH_STRING);
        script.push(bytes.len() as u8 + 1);
        script.extend_from_slice(&bytes);
        script.push(0);
    }
    // Operands with an embedded NUL or an absurd length are not strings and
    // must not contribute characters.
    script.extend_from_slice(&[OPCODE_PUSH_STRING, 3, 0x8D, 0x00, 0x8E]);
    script.extend_from_slice(&[OPCODE_PUSH_STRING, 255, 0x8D, 0x8E]);

    let chars = script_chars(&script);
    assert!(chars.contains('徼'));
    assert!(chars.contains('戍'));
    assert!(chars.contains('諍'));
    assert!(chars.contains('禳'));
    assert!(!chars.contains('\0'));
}

#[test]
fn operands_are_read_where_they_are_whole() {
    let mut script = vec![0x01, 0x02];
    push_string(&mut script, b"abc");
    assert_eq!(pushed_string(&script, 2), Some(&b"abc"[..]));
    assert_eq!(pushed_string(&script, 0), None);
    assert_eq!(pushed_string(&script, 4), None);
    assert_eq!(pushed_string(&script, 1000), None);
    // Without a terminator the operand is taken whole.
    assert_eq!(pushed_string(&[0x0E, 2, b'a', b'b'], 0), Some(&b"ab"[..]));
    assert_eq!(pushed_string(&[0x0E, 1, 0], 0), Some(&b""[..]));
    // Cut off, empty, or with a NUL inside.
    assert_eq!(pushed_string(&[0x0E, 3, b'a', b'b'], 0), None);
    assert_eq!(pushed_string(&[0x0E, 0, b'a'], 0), None);
    assert_eq!(pushed_string(&[0x0E, 3, b'a', 0, b'b'], 0), None);
    assert_eq!(pushed_string(&[0x0E, 2, 0, 0], 0), None);
    assert_eq!(pushed_string(&[], 0), None);
    assert_eq!(pushed_string(&[0x0E], 0), None);
}

#[test]
fn longest_operand_has_two_hundred_bytes() {
    let mut longest = vec![OPCODE_PUSH_STRING, MAX_PUSHSTRING_LEN as u8];
    longest.extend_from_slice(&[b'x'; 201]);
    assert_eq!(pushed_string(&longest, 0), Some(&[b'x'; 200][..]));
    longest[1] = 201;
    assert_eq!(pushed_string(&longest, 0), None);
}

#[test]
fn ascii_operands_are_collected_as_they_are() {
    let mut script = Vec::new();
    push_string(&mut script, b"Hi!");
    let chars = script_chars(&script);
    for c in ['H', 'i', '!'] {
        assert!(chars.contains(c));
    }
    assert!(!chars.contains('h'));
}

#[test]
fn char_set_operations() {
    let mut set = CharSet::new();
    assert!(set.insert('遵'));
    assert!(!set.insert('遵'));
    set.extend("ab\u{1F600}");
    let mut other = CharSet::new();
    other.insert('z');
    other.merge(&set);
    for c in ['遵', 'a', 'b', '\u{1F600}', 'z'] {
        assert!(other.contains(c));
    }
    assert!(!set.contains('z'));
    assert!(!other.contains('c'));
}

#[test]
fn engine_binaries_go_by_extension() {
    assert!(is_engine_binary(Some("dll")));
    assert!(is_engine_binary(Some("DLL")));
    assert!(is_engine_binary(Some("Exe")));
    assert!(!is_engine_binary(Some("bin")));
    assert!(!is_engine_binary(Some("exec")));
    assert!(!is_engine_binary(Some("")));
    assert!(!is_engine_binary(None));
}

/// The bytes of a binary with a table of `count` entries, and its keys.
fn binary_with_table(count: usize) -> (Vec<u8>, Vec<char>) {
    let tables = shift_jis();
    let all: Vec<char> = (0x4E00u32..=0x9FFF).filter_map(char::from_u32).collect();
    let keys: Vec<char> = all
        .iter()
        .copied()
        .filter(|c| encodable_in_shift_jis(&tables, *c))
        .take(count)
        .collect();
    let shown: Vec<char> = all
        .iter()
        .copied()
        .filter(|c| !encodable_in_shift_jis(&tables, *c))
        .take(count)
        .collect();
    let mut bytes = vec![0u8; 6];
    for (key, target) in keys.iter().zip(&shown) {
        bytes.extend_from_slice(&(*key as u32 as u16).to_le_bytes());
        bytes.extend_from_slice(&(*target as u32 as u16).to_le_bytes());
    }
    (bytes, keys)
}

#[test]
fn directory_search_asks_for_what_it_needs() {
    let sjis = shift_jis();
    let mut tables = begin_scan_dir(None);
    assert!(tables.is_empty());
    let action = scan_dir(&sjis, &mut tables, DirEvent::Listed(Some("txt")));
    assert_eq!(action, DirAction::NextEntry);
    let action = scan_dir(&sjis, &mut tables, DirEvent::Listed(None));
    assert_eq!(action, DirAction::NextEntry);
    let action = scan_dir(&sjis, &mut tables, DirEvent::Listed(Some("dll")));
    assert_eq!(action, DirAction::ReadMetadata);
    let too_large = DirEvent::Metadata { is_file: true, len: MAX_BINARY_SIZE + 1 };
    assert_eq!(scan_dir(&sjis, &mut tables, too_large), DirAction::NextEntry);
    let no_file = DirEvent::Metadata { is_file: false, len: 10 };
    assert_eq!(scan_dir(&sjis, &mut tables, no_file), DirAction::NextEntry);
    let fits = DirEvent::Metadata { is_file: true, len: MAX_BINARY_SIZE };
    assert_eq!(scan_dir(&sjis, &mut tables, fits), DirAction::ReadContents);
    let action = scan_dir(&sjis, &mut tables, DirEvent::Unreadable);
    assert_eq!(action, DirAction::NextEntry);
    assert!(tables.is_empty());
    let (bytes, _) = binary_with_table(40);
    let action = scan_dir(&sjis, &mut tables, DirEvent::Contents(&bytes));
    assert_eq!(action, DirAction::NextEntry);
    assert_eq!(tables.len(), 1);
    assert_eq!(tables[0].pairs().len(), 40);
}

#[test]
fn stated_table_comes_before_scanned_ones() {
    let config = br#"{ "source_chars": "\u9075", "target_chars": "\u8fdd" }"#;
    let mut tables = begin_scan_dir(Some(config));
    assert_eq!(tables.len(), 1);
    let (bytes, _) = binary_with_table(32);
    scan_dir(&shift_jis(), &mut tables, DirEvent::Contents(&bytes));
    assert_eq!(tables.len(), 2);
    assert_eq!(tables[0].lookup('遵'), Some('违'));
    assert_eq!(tables[1].pairs().len(), 32);
    assert!(begin_scan_dir(Some(b"{}")).is_empty());
}

#[test]
fn characters_accumulate_across_scripts() {
    let (bytes, keys) = binary_with_table(32);
    let mut tables = begin_scan_dir(None);
    scan_dir(&shift_jis(), &mut tables, DirEvent::Contents(&bytes));
    let mut cache = ScanCache::new();
    assert!(!cache.is_scanned(7));

    let half = |part: &[char]| {
        let line: String = part.iter().collect();
        let (text, _, _) = encoding_rs::SHIFT_JIS.encode(&line);
        let mut script = Vec::new();
        push_string(&mut script, &text);
        script
    };
    // Half of the keys do not confirm the table yet.
    assert!(load_from_game_dir(&mut cache, 7, tables, &half(&keys[..16])).is_none());
    assert!(cache.is_scanned(7));
    assert!(!cache.is_scanned(8));
    // The tables found first are kept, and the other half completes the text.
    let table = load_from_game_dir(&mut cache, 7, Vec::new(), &half(&keys[16..]));
    let table = table.expect("table");
    assert_eq!(table.pairs().len(), 32);
    assert_eq!(cache.count_hits(7, &table), Some((32, 32)));
    assert_eq!(cache.count_hits(9, &table), None);
    // Another directory shares neither.
    assert!(load_from_game_dir(&mut cache, 8, Vec::new(), &half(&keys)).is_none());
    // More text does not take the table away.
    let mut other = Vec::new();
    push_string(&mut other, b"unrelated");
    assert!(load_from_game_dir(&mut cache, 7, Vec::new(), &other).is_some());
}

#[test]
fn longer_script_keeps_its_characters() {
    let mut script = Vec::new();
    push_string(&mut script, b"abc");
    assert!(script_chars(&script).contains('b'));
    push_string(&mut script, b"xyz");
    let chars = script_chars(&script);
    assert!(chars.contains('b'));
    assert!(chars.contains('y'));
}

#[test]
fn order_of_scripts_does_not_matter() {
    let stated = || begin_scan_dir(Some(br#"{ "source_chars": "ab", "target_chars": "cd" }"#));
    let (mut first, mut second) = (Vec::new(), Vec::new());
    push_string(&mut first, b"a");
    push_string(&mut second, b"b");
    for (one, other) in [(&first, &second), (&second, &first)] {
        let mut cache = ScanCache::new();
        assert!(load_from_game_dir(&mut cache, 0, stated(), one).is_none());
        let table = load_from_game_dir(&mut cache, 0, stated(), other).expect("table");
        assert_eq!(table.remap("ab"), "cd");
    }
}

/// NUL is never among the characters of a script, also where an operand starts
/// with a byte order mark.
#[test]
fn nul_is_never_collected() {
    for operand in [&b"\xFF\xFEa\x01"[..], &b"\xFE\xFF\x01a"[..], &b"\xEF\xBB\xBFab"[..]] {
        let mut script = Vec::new();
        push_string(&mut script, operand);
        assert!(!script_chars(&script).contains('\0'));
    }
}

#[test]
fn tables_come_in_listing_order() {
    let sjis = shift_jis();
    let (small, _) = binary_with_table(32);
    let (large, _) = binary_with_table(40);
    let listing: [(&str, u64, Option<&[u8]>); 5] = [
        ("EXE", 10, Some(&large)),
        ("txt", 10, Some(&large)),
        ("dll", MAX_BINARY_SIZE + 1, Some(&large)),
        ("exe", 10, None),
        ("dll", 10, Some(&small)),
    ];
    let mut tables = begin_scan_dir(None);
    for (extension, len, contents) in listing {
        let mut event = DirEvent::Listed(Some(extension));
        loop {
            event = match scan_dir(&sjis, &mut tables, event) {
                DirAction::ReadMetadata => DirEvent::Metadata { is_file: true, len },
                DirAction::ReadContents => match contents {
                    Some(bytes) => DirEvent::Contents(bytes),
                    None => DirEvent::Unreadable,
                },
                DirAction::NextEntry => break,
            };
        }
    }
    let lens: Vec<usize> = tables.iter().map(|table| table.pairs().len()).collect();
    assert_eq!(lens, [40, 32]);
}
