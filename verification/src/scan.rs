//! Finding remap tables in the bytes of a binary.
use crate::chars::{in_bmp, is_scalar, lemma_char_code, CharSet};
use crate::codepage::{distinct_keys, mapping, scalar_pairs, Codepage};
use crate::scan_laws::law_candidate_entries;
use crate::shift_jis::{
    code_unit_char, encodable_in_shift_jis, is_settled, representable, shift_jis_code_to_char,
    ShiftJis,
};
use vstd::prelude::*;

verus! {

broadcast use vstd::set::group_set_axioms;

/// A real table has hundreds of entries, and runs of binary noise never come
/// close. This is what keeps a stray DLL, or a release with no patch at all,
/// from inventing a table.
pub const MIN_TABLE_ENTRIES: usize = 32;

/// Share of a candidate's targets that must be unrepresentable in Shift-JIS,
/// the reason the table exists at all.
pub const MIN_NON_SJIS_TARGET_PERCENT: usize = 30;

/// How the 16-bit key of an entry is to be read. Most frameworks store the
/// substitute character itself; some store its Shift-JIS code unit.
#[derive(Clone, Copy, Debug, PartialEq, Eq, Structural)]
pub enum KeyMode {
    Unicode,
    ShiftJis,
}

/// The little-endian 16-bit number at `off`.
pub open spec fn unit_at(bytes: Seq<u8>, off: int) -> u16 {
    (bytes[off] + 256 * bytes[off + 1]) as u16
}

/// The 4-byte record at `off`.
pub open spec fn pair_at(bytes: Seq<u8>, off: int) -> (u16, u16) {
    (unit_at(bytes, off), unit_at(bytes, off + 2))
}

/// The character that a stored key stands for in decoded script text.
pub open spec fn key_char(key: u16, mode: KeyMode) -> Option<char> {
    match mode {
        KeyMode::Unicode => if is_scalar(key as int) {
            Some(key as char)
        } else {
            None
        },
        KeyMode::ShiftJis => code_unit_char(key),
    }
}

/// A target that a patch can want to show: anything but controls, surrogates
/// and the replacement character.
pub open spec fn is_target(target: u16) -> bool {
    0xA0 <= target <= 0xD7FF || 0xE000 <= target && target != 0xFFFD
}

/// A record that can stand in a table.
pub open spec fn is_record(pair: (u16, u16), mode: KeyMode) -> bool {
    is_target(pair.1) && match mode {
        KeyMode::Unicode => 0x3000 <= pair.0 <= 0x9FFF && representable(pair.0 as char),
        KeyMode::ShiftJis => code_unit_char(pair.0) is Some,
    }
}

/// The pairs with every key replaced by the character that it stands for.
pub open spec fn normalized(pairs: Seq<(u16, u16)>, mode: KeyMode) -> Seq<(u16, u16)> {
    pairs.map_values(
        |pair: (u16, u16)|
            (
                match key_char(pair.0, mode) {
                    Some(c) => c as u16,
                    None => 0u16,
                },
                pair.1,
            ),
    )
}

/// Both halves of the pair are characters that fit 16 bits.
pub open spec fn is_readable(pair: (u16, u16), mode: KeyMode) -> bool {
    &&& key_char(pair.0, mode) matches Some(c) && in_bmp(c)
    &&& is_scalar(pair.1 as int)
}

/// The pairs whose target Shift-JIS cannot represent.
pub open spec fn non_sjis_targets(pairs: Seq<(u16, u16)>) -> Seq<(u16, u16)> {
    pairs.filter(|pair: (u16, u16)| !representable(pair.1 as char))
}

/// The pairs can be a localization remap table.
pub open spec fn is_table(pairs: Seq<(u16, u16)>, mode: KeyMode) -> bool {
    &&& pairs.len() >= MIN_TABLE_ENTRIES
    &&& forall|i: int| 0 <= i < pairs.len() ==> is_readable(#[trigger] pairs[i], mode)
    &&& distinct_keys(normalized(pairs, mode))
    &&& non_sjis_targets(pairs).len() * 100 >= pairs.len() * MIN_NON_SJIS_TARGET_PERCENT
}

/// What a table of these pairs maps.
pub open spec fn table_mapping(pairs: Seq<(u16, u16)>, mode: KeyMode) -> Map<char, char> {
    mapping(normalized(pairs, mode))
}

/// There are at most 65536 different 16-bit keys.
pub proof fn lemma_distinct_keys_bound(pairs: Seq<(u16, u16)>)
    requires
        distinct_keys(pairs),
    ensures
        pairs.len() <= 0x1_0000,
{
    let keys = pairs.map_values(|pair: (u16, u16)| pair.0 as int);
    assert(keys.no_duplicates()) by {
        assert forall|i: int, j: int|
            0 <= i < keys.len() && 0 <= j < keys.len() && i != j implies keys[i] != keys[j] by {
            let (a, b) = if i < j {
                (i, j)
            } else {
                (j, i)
            };
            assert(pairs[a].0 != pairs[b].0);
        }
    }
    keys.unique_seq_to_set();
    vstd::set_lib::lemma_int_range(0, 0x1_0000);
    assert(keys.to_set().subset_of(vstd::set_lib::set_int_range(0, 0x1_0000)));
    vstd::set_lib::lemma_len_subset(keys.to_set(), vstd::set_lib::set_int_range(0, 0x1_0000));
}

/// Reads the record at `off`.
pub fn read_pair(bytes: &[u8], off: usize) -> (pair: (u16, u16))
    requires
        off + 4 <= bytes@.len(),
    ensures
        pair == pair_at(bytes@, off as int),
{
    (
        bytes[off] as u16 + 256 * bytes[off + 1] as u16,
        bytes[off + 2] as u16 + 256 * bytes[off + 3] as u16,
    )
}

/// Whether the four bytes at `off` can be a record of a table.
pub fn is_pair(tables: &ShiftJis, bytes: &[u8], off: usize, mode: KeyMode) -> (possible: bool)
    requires
        off + 4 <= bytes@.len(),
    ensures
        possible == is_record(pair_at(bytes@, off as int), mode),
{
    let (key, target) = read_pair(bytes, off);
    // Targets are the Chinese text the patch wants to show: anything but
    // controls, surrogates and the replacement character. Private use symbols
    // like U+F8F2 do occur here.
    if target < 0xA0 || (0xD800 <= target && target <= 0xDFFF) || target == 0xFFFD {
        return false;
    }
    match mode {
        // Substitutes came out of a Shift-JIS decode of the script.
        KeyMode::Unicode => 0x3000 <= key && key <= 0x9FFF && match char::from_u32(key as u32) {
            Some(c) => encodable_in_shift_jis(tables, c),
            None => false,
        },
        KeyMode::ShiftJis => shift_jis_code_to_char(tables, key).is_some(),
    }
}

/// The character that a stored key stands for.
fn read_key(tables: &ShiftJis, key: u16, mode: KeyMode) -> (c: Option<char>)
    ensures
        c == key_char(key, mode),
{
    match mode {
        KeyMode::Unicode => char::from_u32(key as u32),
        KeyMode::ShiftJis => shift_jis_code_to_char(tables, key),
    }
}

/// Rejects anything that cannot be a localization remap table.
///
/// Keys are normalized to the character they stand for in decoded script text,
/// so the remap side does not need to know which form was stored.
pub fn validate(tables: &ShiftJis, pairs: Vec<(u16, u16)>, mode: KeyMode) -> (table: Option<
    Codepage,
>)
    ensures
        table is Some <==> is_table(pairs@, mode),
        table matches Some(t) ==> t@ == table_mapping(pairs@, mode),
{
    if pairs.len() < MIN_TABLE_ENTRIES {
        return None;
    }
    let mut seen = CharSet::new();
    let mut non_sjis: usize = 0;
    let mut entries: Vec<(u16, u16)> = Vec::with_capacity(pairs.len());
    let mut i: usize = 0;
    assert(entries@ =~= normalized(pairs@.take(0), mode));
    assert(non_sjis_targets(pairs@.take(0)) =~= Seq::empty()) by {
        reveal_with_fuel(Seq::filter, 1);
    }
    while i < pairs.len()
        invariant
            i <= pairs@.len(),
            forall|j: int| 0 <= j < i ==> is_readable(#[trigger] pairs@[j], mode),
            entries@ == normalized(pairs@.take(i as int), mode),
            entries@.len() == i,
            distinct_keys(entries@),
            scalar_pairs(entries@),
            forall|c: char|
                #[trigger] seen@.contains(c) <==> exists|j: int|
                    #![trigger pairs@[j]]
                    0 <= j < i && key_char(pairs@[j].0, mode) == Some(c),
            non_sjis == non_sjis_targets(pairs@.take(i as int)).len(),
            non_sjis <= i,
        decreases pairs@.len() - i,
    {
        let (key, target) = pairs[i];
        let ghost pair = pairs@[i as int];
        let ghost all = normalized(pairs@, mode);
        let c = match read_key(tables, key, mode) {
            Some(c) => c,
            None => {
                assert(!is_readable(pair, mode));
                return None;
            },
        };
        if !seen.insert(c) {
            proof {
                let j = choose|j: int|
                    #![trigger pairs@[j]]
                    0 <= j < i && key_char(pairs@[j].0, mode) == Some(c);
                assert(all[j].0 == all[i as int].0);
            }
            return None;
        }
        let target_char = match char::from_u32(target as u32) {
            Some(target_char) => target_char,
            None => {
                assert(!is_readable(pair, mode));
                return None;
            },
        };
        let ghost before = non_sjis_targets(pairs@.take(i as int));
        proof {
            assert(pairs@.take(i + 1).drop_last() =~= pairs@.take(i as int));
            assert(pairs@.take(i + 1).last() == pair);
            assert(non_sjis_targets(pairs@.take(i + 1)) == if representable(pair.1 as char) {
                before
            } else {
                before.push(pair)
            }) by {
                reveal_with_fuel(Seq::filter, 2);
            }
        }
        if !encodable_in_shift_jis(tables, target_char) {
            non_sjis = non_sjis + 1;
        }
        proof {
            lemma_char_code(c);
        }
        let code: u32 = c as u32;
        if code > 0xFFFF {
            assert(!is_readable(pair, mode));
            return None;
        }
        let ghost old_entries = entries@;
        entries.push((code as u16, target));
        proof {
            assert(pairs@.take(i + 1) =~= pairs@.take(i as int).push(pair));
            assert(entries@ =~= normalized(pairs@.take(i + 1), mode));
            assert forall|k: int, l: int|
                #![trigger entries@[k], entries@[l]]
                0 <= k < l < entries@.len() implies entries@[k].0 != entries@[l].0 by {
                if l == i {
                    assert(is_readable(pairs@[k], mode));
                    assert(key_char(pairs@[k].0, mode) != Some(c));
                    lemma_char_code(key_char(pairs@[k].0, mode)->0);
                } else {
                    assert(entries@[k] == old_entries[k] && entries@[l] == old_entries[l]);
                }
            }
            assert forall|k: int| #![trigger entries@[k]] 0 <= k < entries@.len() implies is_scalar(
                entries@[k].0 as int,
            ) && is_scalar(entries@[k].1 as int) by {
                if k < i {
                    assert(entries@[k] == old_entries[k]);
                }
            }
        }
        i = i + 1;
    }
    proof {
        assert(pairs@.take(pairs@.len() as int) =~= pairs@);
        lemma_distinct_keys_bound(entries@);
    }
    if non_sjis * 100 < pairs.len() * MIN_NON_SJIS_TARGET_PERCENT {
        return None;
    }
    Some(Codepage::from_pairs(entries))
}

/// Where the run of records that starts at `off` ends.
pub open spec fn run_end(bytes: Seq<u8>, off: int, mode: KeyMode) -> int
    decreases bytes.len() - off,
{
    if off + 4 <= bytes.len() && is_record(pair_at(bytes, off), mode) {
        run_end(bytes, off + 4, mode)
    } else {
        off
    }
}

/// The records between two offsets.
pub open spec fn records(bytes: Seq<u8>, start: int, end: int) -> Seq<(u16, u16)> {
    Seq::new(((end - start) / 4) as nat, |i: int| pair_at(bytes, start + 4 * i))
}

/// The records of the run that starts at `off`.
pub open spec fn run_at(bytes: Seq<u8>, off: int, mode: KeyMode) -> Seq<(u16, u16)> {
    records(bytes, off, run_end(bytes, off, mode))
}

/// The run that starts at `off` is a table.
pub open spec fn table_at(bytes: Seq<u8>, off: int, mode: KeyMode) -> bool {
    is_table(run_at(bytes, off, mode), mode)
}

/// Where the tables start that a sweep from `off` on takes: it goes on behind a
/// table, and two bytes on from a start that is none.
pub open spec fn table_starts(bytes: Seq<u8>, off: int, mode: KeyMode) -> Seq<int>
    decreases bytes.len() - off,
{
    proof {
        lemma_run_end(bytes, off, mode);
    }
    if off + 4 > bytes.len() {
        Seq::empty()
    } else if table_at(bytes, off, mode) {
        seq![off] + table_starts(bytes, run_end(bytes, off, mode), mode)
    } else {
        table_starts(bytes, off + 2, mode)
    }
}

/// What the tables that start at `starts` map.
pub open spec fn tables_at(
    bytes: Seq<u8>,
    starts: Seq<int>,
    mode: KeyMode,
) -> Seq<Map<char, char>> {
    starts.map_values(
        |start: int| table_mapping(run_at(bytes, start, mode), mode),
    )
}

/// The candidates of one key mode, in the order in which they lie in `bytes`.
pub open spec fn candidates(bytes: Seq<u8>, mode: KeyMode) -> Seq<Map<char, char>> {
    tables_at(bytes, table_starts(bytes, 0, mode), mode)
}

/// Every candidate: those with character keys, then those with code unit keys.
pub open spec fn all_candidates(bytes: Seq<u8>) -> Seq<Map<char, char>> {
    candidates(bytes, KeyMode::Unicode) + candidates(bytes, KeyMode::ShiftJis)
}

/// What each table maps.
pub open spec fn mappings(found: Seq<Codepage>) -> Seq<Map<char, char>> {
    found.map_values(|table: Codepage| table@)
}

/// A run is a whole number of records within the bytes, and a run that is a
/// table is not empty.
pub proof fn lemma_run_end(bytes: Seq<u8>, off: int, mode: KeyMode)
    ensures
        off <= run_end(bytes, off, mode),
        off <= bytes.len() ==> run_end(bytes, off, mode) <= bytes.len(),
        (run_end(bytes, off, mode) - off) % 4 == 0,
        table_at(bytes, off, mode) ==> off < run_end(bytes, off, mode),
    decreases bytes.len() - off,
{
    if off + 4 <= bytes.len() && is_record(pair_at(bytes, off), mode) {
        lemma_run_end(bytes, off + 4, mode);
    }
}

/// Finds the candidate tables whose keys are read in one mode.
fn scan_mode(tables: &ShiftJis, bytes: &[u8], mode: KeyMode) -> (found: Vec<Codepage>)
    ensures
        mappings(found@) == candidates(bytes@, mode),
{
    let mut found: Vec<Codepage> = Vec::new();
    let mut off: usize = 0;
    let ghost starts = table_starts(bytes@, 0, mode);
    let ghost mut taken: Seq<int> = Seq::empty();
    assert(taken + starts =~= starts);
    while bytes.len() - off >= 4
        invariant
            off <= bytes@.len(),
            taken + table_starts(bytes@, off as int, mode) == starts,
            mappings(found@) =~= tables_at(bytes@, taken, mode),
        decreases bytes@.len() - off,
    {
        let start: usize = off;
        let mut pairs: Vec<(u16, u16)> = Vec::new();
        while bytes.len() - off >= 4 && is_pair(tables, bytes, off, mode)
            invariant
                start <= off <= bytes@.len(),
                off - start == 4 * pairs@.len(),
                pairs@ =~= records(bytes@, start as int, off as int),
                run_end(bytes@, start as int, mode) == run_end(bytes@, off as int, mode),
            decreases bytes@.len() - off,
        {
            pairs.push(read_pair(bytes, off));
            off = off + 4;
        }
        let ghost end = run_end(bytes@, start as int, mode);
        assert(end == off);
        assert(pairs@ == run_at(bytes@, start as int, mode));
        let accepted = if off > start {
            validate(tables, pairs, mode)
        } else {
            None
        };
        match accepted {
            // A real table is one array, and the runs nested inside it are the
            // same data with fewer entries, so skip past it.
            Some(table) => {
                let ghost earlier = found@;
                found.push(table);
                proof {
                    let mapped = table_mapping(pairs@, mode);
                    assert(mappings(found@) =~= mappings(earlier).push(mapped));
                    assert(tables_at(bytes@, taken.push(start as int), mode) =~= tables_at(
                        bytes@,
                        taken,
                        mode,
                    ).push(mapped));
                    let rest = table_starts(bytes@, end, mode);
                    assert(taken + (seq![start as int] + rest) =~= taken.push(start as int) + rest);
                    taken = taken.push(start as int);
                }
            },
            // A rejected run must not swallow the offsets inside it: its tail
            // may be the head of the real table.
            None => {
                off = start + 2;
            },
        }
    }
    assert(taken + Seq::<int>::empty() =~= taken);
    found
}

/// Finds every candidate table in `bytes`.
///
/// A table is a contiguous array of 4-byte `(substitute, real)` records, so it
/// shows up as a run of valid records; noise around it always breaks the run.
/// The array is not guaranteed to start on a 4-byte boundary, hence the 2-byte
/// step between candidate starts.
pub fn scan(tables: &ShiftJis, bytes: &[u8]) -> (found: Vec<Codepage>)
    ensures
        mappings(found@) == all_candidates(bytes@),
        forall|k: int, c: char|
            0 <= k < found@.len() && #[trigger] found@[k]@.contains_key(c) ==> representable(c),
{
    let mut found = scan_mode(tables, bytes, KeyMode::Unicode);
    let mut by_code_unit = scan_mode(tables, bytes, KeyMode::ShiftJis);
    let ghost (first, second) = (found@, by_code_unit@);
    found.append(&mut by_code_unit);
    assert(mappings(first + second) =~= mappings(first) + mappings(second));
    proof {
        use_type_invariant(tables);
        assert forall|k: int, c: char|
            0 <= k < found@.len() && #[trigger] found@[k]@.contains_key(c) implies representable(
            c,
        ) by {
            if k < first.len() {
                assert(mappings(first)[k] == found@[k]@);
                law_candidate_entries(bytes@, KeyMode::Unicode, k);
            } else {
                assert(mappings(second)[k - first.len()] == found@[k]@);
                law_candidate_entries(bytes@, KeyMode::ShiftJis, k - first.len());
                let code = choose|code: u16| #[trigger] code_unit_char(code) == Some(c);
                assert(is_settled(code));
            }
        }
    }
    found
}

} // verus!
