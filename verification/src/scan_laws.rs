//! What the scan promises of the bytes it is given.
use crate::chars::{in_bmp, is_scalar, lemma_char_code};
use crate::codepage::{
    law_pairs_are_mapped_one_by_one, lemma_mapping_keys, lemma_mapping_size, lemma_mapping_value,
    mapping, scalar_pairs, Codepage,
};
use crate::scan::{
    all_candidates, candidates, is_readable, is_record, is_table, is_target, key_char,
    lemma_run_end, mappings, non_sjis_targets, normalized, pair_at, run_at, run_end, table_at, table_mapping, table_starts,
    KeyMode, MIN_TABLE_ENTRIES,
};
use crate::shift_jis::{
    code_unit_char, law_code_unit_stands_for_its_decoding, representable, shift_jis_decoding, shift_jis_unmappable,
};
use vstd::prelude::*;

verus! {

/// The bytes of one record.
pub open spec fn encoded_pair(pair: (u16, u16)) -> Seq<u8> {
    seq![
        (pair.0 % 256) as u8,
        (pair.0 / 256) as u8,
        (pair.1 % 256) as u8,
        (pair.1 / 256) as u8,
    ]
}

/// The bytes of an array of records.
pub open spec fn encoded(pairs: Seq<(u16, u16)>) -> Seq<u8> {
    Seq::new((4 * pairs.len()) as nat, |i: int| encoded_pair(pairs[i / 4])[i % 4])
}

/// Every table taken starts an even number of bytes on from where the sweep
/// started, lies within the bytes, and is a table.
pub proof fn law_scan_takes_only_tables(bytes: Seq<u8>, off: int, mode: KeyMode, k: int)
    requires
        0 <= k < table_starts(bytes, off, mode).len(),
    ensures
        ({
            let start = table_starts(bytes, off, mode)[k];
            &&& off <= start
            &&& (start - off) % 2 == 0
            &&& start < run_end(bytes, start, mode) <= bytes.len()
            &&& table_at(bytes, start, mode)
        }),
    decreases bytes.len() - off,
{
    lemma_run_end(bytes, off, mode);
    if off + 4 <= bytes.len() {
        let end = run_end(bytes, off, mode);
        if table_at(bytes, off, mode) {
            if k > 0 {
                law_scan_takes_only_tables(bytes, end, mode, k - 1);
            }
        } else {
            law_scan_takes_only_tables(bytes, off + 2, mode, k);
        }
    }
}

/// No two tables taken share a byte, and they come in the order of the bytes.
pub proof fn law_tables_taken_are_disjoint(bytes: Seq<u8>, off: int, mode: KeyMode, k: int, l: int)
    requires
        0 <= k < l < table_starts(bytes, off, mode).len(),
    ensures
        run_end(bytes, table_starts(bytes, off, mode)[k], mode) <= table_starts(
            bytes,
            off,
            mode,
        )[l],
    decreases bytes.len() - off,
{
    lemma_run_end(bytes, off, mode);
    if off + 4 <= bytes.len() {
        let end = run_end(bytes, off, mode);
        if table_at(bytes, off, mode) {
            if k > 0 {
                law_tables_taken_are_disjoint(bytes, end, mode, k - 1, l - 1);
            } else {
                law_scan_takes_only_tables(bytes, end, mode, l - 1);
            }
        } else {
            law_tables_taken_are_disjoint(bytes, off + 2, mode, k, l);
        }
    }
}

/// No table is missed: wherever one starts, an even number of bytes on from
/// where the sweep started, it is taken, or its start lies inside one that is.
pub proof fn law_scan_misses_no_table(bytes: Seq<u8>, off: int, mode: KeyMode, start: int)
    requires
        off <= start,
        (start - off) % 2 == 0,
        table_at(bytes, start, mode),
    ensures
        exists|k: int|
            #![trigger table_starts(bytes, off, mode)[k]]
            0 <= k < table_starts(bytes, off, mode).len() && table_starts(
                bytes,
                off,
                mode,
            )[k] <= start < run_end(
                bytes,
                table_starts(bytes, off, mode)[k],
                mode,
            ),
    decreases bytes.len() - off,
{
    let starts = table_starts(bytes, off, mode);
    lemma_run_end(bytes, off, mode);
    lemma_run_end(bytes, start, mode);
    let end = run_end(bytes, off, mode);
    assert(start + 4 <= bytes.len());
    if table_at(bytes, off, mode) {
        if start < end {
            assert(starts[0] == off);
        } else {
            law_scan_misses_no_table(bytes, end, mode, start);
            let rest = table_starts(bytes, end, mode);
            let k = choose|k: int|
                #![trigger rest[k]]
                0 <= k < rest.len() && rest[k] <= start < run_end(bytes, rest[k], mode);
            assert(starts[k + 1] == rest[k]);
        }
    } else {
        law_scan_misses_no_table(bytes, off + 2, mode, start);
    }
}

proof fn lemma_encoded_record(front: Seq<u8>, pairs: Seq<(u16, u16)>, back: Seq<u8>, i: int)
    requires
        0 <= i < pairs.len(),
    ensures
        pair_at(front + encoded(pairs) + back, front.len() + 4 * i) == pairs[i],
{
    let bytes = front + encoded(pairs) + back;
    let at = front.len() + 4 * i;
    assert(bytes[at] == encoded(pairs)[4 * i]);
    assert(bytes[at + 1] == encoded(pairs)[4 * i + 1]);
    assert(bytes[at + 2] == encoded(pairs)[4 * i + 2]);
    assert(bytes[at + 3] == encoded(pairs)[4 * i + 3]);
}

/// The run at the start of an encoded array is that array, where what follows
/// it is no record.
proof fn lemma_encoded_run(
    front: Seq<u8>,
    pairs: Seq<(u16, u16)>,
    back: Seq<u8>,
    mode: KeyMode,
    i: int,
)
    requires
        0 <= i <= pairs.len(),
        forall|k: int| 0 <= k < pairs.len() ==> is_record(#[trigger] pairs[k], mode),
        back.len() < 4 || !is_record(pair_at(back, 0), mode),
    ensures
        run_end(front + encoded(pairs) + back, front.len() + 4 * i, mode) == front.len() + 4
            * pairs.len(),
    decreases pairs.len() - i,
{
    let bytes = front + encoded(pairs) + back;
    let at = front.len() + 4 * i;
    if i < pairs.len() {
        lemma_encoded_record(front, pairs, back, i);
        assert(is_record(pairs[i], mode));
        lemma_encoded_run(front, pairs, back, mode, i + 1);
    } else if at + 4 <= bytes.len() {
        assert(bytes[at] == back[0]);
        assert(bytes[at + 1] == back[1]);
        assert(bytes[at + 2] == back[2]);
        assert(bytes[at + 3] == back[3]);
        assert(pair_at(bytes, at) == pair_at(back, 0));
    }
}

/// A table written into a binary at any even offset is read back whole: it is a
/// candidate that maps what was written. Only a record right behind it, or a
/// table that starts before it and reaches into it, can change that.
pub proof fn law_written_table_is_found(
    front: Seq<u8>,
    pairs: Seq<(u16, u16)>,
    back: Seq<u8>,
    mode: KeyMode,
)
    requires
        front.len() % 2 == 0,
        is_table(pairs, mode),
        forall|k: int| 0 <= k < pairs.len() ==> is_record(#[trigger] pairs[k], mode),
        back.len() < 4 || !is_record(pair_at(back, 0), mode),
        forall|p: int|
            0 <= p < front.len() && p % 2 == 0 && #[trigger] table_at(
                front + encoded(pairs) + back,
                p,
                mode,
            ) ==> run_end(front + encoded(pairs) + back, p, mode) <= front.len(),
    ensures
        candidates(front + encoded(pairs) + back, mode).contains(
            table_mapping(pairs, mode),
        ),
{
    let bytes = front + encoded(pairs) + back;
    let start = front.len() as int;
    lemma_encoded_run(front, pairs, back, mode, 0);
    let run = run_at(bytes, start, mode);
    assert(run =~= pairs) by {
        assert forall|i: int| 0 <= i < pairs.len() implies run[i] == pairs[i] by {
            lemma_encoded_record(front, pairs, back, i);
        }
    }
    law_scan_misses_no_table(bytes, 0, mode, start);
    let starts = table_starts(bytes, 0, mode);
    let k = choose|k: int|
        #![trigger starts[k]]
        0 <= k < starts.len() && starts[k] <= start < run_end(bytes, starts[k], mode);
    law_scan_takes_only_tables(bytes, 0, mode, k);
    assert(starts[k] == start);
    assert(candidates(bytes, mode)[k] == table_mapping(pairs, mode));
}

/// Where no run is long enough there is no candidate: runs below the minimum
/// length are noise.
pub proof fn law_short_runs_are_no_tables(bytes: Seq<u8>, mode: KeyMode)
    requires
        forall|p: int|
            0 <= p < bytes.len() && p % 2 == 0 ==> #[trigger] run_end(bytes, p, mode) - p
                < 4 * MIN_TABLE_ENTRIES,
    ensures
        candidates(bytes, mode).len() == 0,
{
    if candidates(bytes, mode).len() > 0 {
        law_scan_takes_only_tables(bytes, 0, mode, 0);
        let start = table_starts(bytes, 0, mode)[0];
        assert(run_end(bytes, start, mode) - start < 4 * MIN_TABLE_ENTRIES);
    }
}

/// Records whose targets Shift-JIS can all represent make no candidate,
/// however long their runs.
pub proof fn law_shift_jis_targets_are_no_tables(bytes: Seq<u8>, mode: KeyMode)
    requires
        forall|p: int|
            0 <= p && p + 4 <= bytes.len() && p % 2 == 0 && is_record(
                #[trigger] pair_at(bytes, p),
                mode,
            ) ==> representable(pair_at(bytes, p).1 as char),
    ensures
        candidates(bytes, mode).len() == 0,
{
    if candidates(bytes, mode).len() > 0 {
        law_scan_takes_only_tables(bytes, 0, mode, 0);
        let start = table_starts(bytes, 0, mode)[0];
        let run = run_at(bytes, start, mode);
        let odd = |pair: (u16, u16)| !representable(pair.1 as char);
        assert forall|i: int| 0 <= i < run.len() implies !odd(#[trigger] run[i]) by {
            lemma_run_record(bytes, start, mode, i);
        }
        lemma_filter_none(run, odd);
        assert(non_sjis_targets(run) =~= run.filter(odd));
    }
}

proof fn lemma_filter_none(s: Seq<(u16, u16)>, keep: spec_fn((u16, u16)) -> bool)
    requires
        forall|i: int| 0 <= i < s.len() ==> !keep(#[trigger] s[i]),
    ensures
        s.filter(keep).len() == 0,
    decreases s.len(),
{
    reveal_with_fuel(Seq::filter, 2);
    if s.len() > 0 {
        assert forall|i: int| 0 <= i < s.drop_last().len() implies !keep(
            #[trigger] s.drop_last()[i],
        ) by {
            assert(s.drop_last()[i] == s[i]);
        }
        assert(s[s.len() - 1] == s.last());
        lemma_filter_none(s.drop_last(), keep);
    }
}

/// Everything in a run is a record, an even number of bytes on from its start.
proof fn lemma_run_record(bytes: Seq<u8>, start: int, mode: KeyMode, i: int)
    requires
        0 <= i < run_at(bytes, start, mode).len(),
    ensures
        start + 4 * i + 4 <= bytes.len(),
        run_at(bytes, start, mode)[i] == pair_at(bytes, start + 4 * i),
        is_record(pair_at(bytes, start + 4 * i), mode),
    decreases i,
{
    let end = run_end(bytes, start, mode);
    lemma_run_end(bytes, start, mode);
    if i > 0 {
        assert(end == run_end(bytes, start + 4, mode));
        lemma_run_record(bytes, start + 4, mode, i - 1);
    }
}

/// A candidate has at least the minimum number of entries. Its keys are
/// characters that a Shift-JIS decode of a script can give, and its targets are
/// neither controls nor the replacement character.
pub proof fn law_candidate_entries(bytes: Seq<u8>, mode: KeyMode, k: int)
    requires
        0 <= k < candidates(bytes, mode).len(),
    ensures
        ({
            let table = candidates(bytes, mode)[k];
            &&& table.dom().finite()
            &&& table.dom().len() >= MIN_TABLE_ENTRIES
            &&& forall|c: char| #[trigger]
                table.contains_key(c) ==> is_target(table[c] as u16) && in_bmp(table[c]) && match mode {
                    KeyMode::Unicode => 0x3000 <= c as int <= 0x9FFF && representable(c),
                    KeyMode::ShiftJis => exists|code: u16| #[trigger]
                        code_unit_char(code) == Some(c),
                }
        }),
{
    law_scan_takes_only_tables(bytes, 0, mode, k);
    let start = table_starts(bytes, 0, mode)[k];
    let run = run_at(bytes, start, mode);
    let pairs = normalized(run, mode);
    lemma_normalized_is_scalar(run, mode);
    lemma_mapping_size(pairs);
    let table = mapping(pairs);
    assert forall|c: char| #[trigger] table.contains_key(c) implies is_target(table[c] as u16)
        && in_bmp(table[c]) && match mode {
        KeyMode::Unicode => 0x3000 <= c as int <= 0x9FFF && representable(c),
        KeyMode::ShiftJis => exists|code: u16| #[trigger] code_unit_char(code) == Some(c),
    } by {
        lemma_char_code(c);
        lemma_mapping_keys(pairs, c);
        let i = choose|i: int| #![trigger pairs[i]] 0 <= i < pairs.len() && pairs[i].0 as int == c as int;
        lemma_mapping_value(pairs, i);
        lemma_run_record(bytes, start, mode, i);
        assert(is_readable(run[i], mode));
        let key = key_char(run[i].0, mode)->0;
        lemma_char_code(key);
        assert(key == c);
    }
}

proof fn lemma_normalized_is_scalar(run: Seq<(u16, u16)>, mode: KeyMode)
    requires
        is_table(run, mode),
    ensures
        scalar_pairs(normalized(run, mode)),
{
    let pairs = normalized(run, mode);
    assert forall|i: int| #![trigger pairs[i]] 0 <= i < pairs.len() implies is_scalar(
        pairs[i].0 as int,
    ) && is_scalar(pairs[i].1 as int) by {
        assert(is_readable(run[i], mode));
        lemma_char_code(key_char(run[i].0, mode)->0);
    }
}

/// The form in which keys are stored does not matter: where the keys of two
/// arrays stand for the same characters and the targets agree, both are tables
/// or neither is, and they map the same.
pub proof fn law_key_form_does_not_matter(
    by_char: Seq<(u16, u16)>,
    by_code_unit: Seq<(u16, u16)>,
)
    requires
        by_char.len() == by_code_unit.len(),
        forall|i: int|
            #![trigger by_char[i]]
            #![trigger by_code_unit[i]]
            0 <= i < by_char.len() ==> key_char(by_char[i].0, KeyMode::Unicode) == key_char(
                by_code_unit[i].0,
                KeyMode::ShiftJis,
            ) && by_char[i].1 == by_code_unit[i].1,
    ensures
        is_table(by_char, KeyMode::Unicode) == is_table(by_code_unit, KeyMode::ShiftJis),
        table_mapping(by_char, KeyMode::Unicode) == table_mapping(by_code_unit, KeyMode::ShiftJis),
{
    assert(normalized(by_char, KeyMode::Unicode) =~= normalized(by_code_unit, KeyMode::ShiftJis));
    lemma_same_targets(by_char, by_code_unit);
    assert forall|i: int|
        #![trigger by_char[i]]
        #![trigger by_code_unit[i]]
        0 <= i < by_char.len() implies is_readable(by_char[i], KeyMode::Unicode)
        == is_readable(by_code_unit[i], KeyMode::ShiftJis) by {}
}

proof fn lemma_same_targets(a: Seq<(u16, u16)>, b: Seq<(u16, u16)>)
    requires
        a.len() == b.len(),
        forall|i: int|
            #![trigger a[i]]
            #![trigger b[i]]
            0 <= i < a.len() ==> a[i].1 == b[i].1,
    ensures
        non_sjis_targets(a).len() == non_sjis_targets(b).len(),
    decreases a.len(),
{
    reveal_with_fuel(Seq::filter, 2);
    if a.len() > 0 {
        let (front_a, front_b) = (a.drop_last(), b.drop_last());
        assert forall|i: int|
            #![trigger front_a[i]]
            #![trigger front_b[i]]
            0 <= i < front_a.len() implies front_a[i].1 == front_b[i].1 by {
            assert(front_a[i] == a[i] && front_b[i] == b[i]);
        }
        lemma_same_targets(front_a, front_b);
        assert(a[a.len() - 1] == a.last() && b[b.len() - 1] == b.last());
    }
}

/// A record with a character key is told by its four bytes: the first two are the
/// key, low byte first, from U+3000 to U+9FFF and encodable in Shift-JIS; the
/// other two are the target, U+00A0 or more, no surrogate and not U+FFFD.
pub proof fn law_character_records(bytes: Seq<u8>, off: int)
    requires
        0 <= off,
        off + 4 <= bytes.len(),
    ensures
        is_record(pair_at(bytes, off), KeyMode::Unicode) <==> {
            let key = bytes[off] + 256 * bytes[off + 1];
            let target = bytes[off + 2] + 256 * bytes[off + 3];
            &&& 0x3000 <= key <= 0x9FFF
            &&& !shift_jis_unmappable(key as char)
            &&& 0xA0 <= target
            &&& !(0xD800 <= target <= 0xDFFF)
            &&& target != 0xFFFD
        },
{
}

/// A record with a code unit key is told by its four bytes: the second and the
/// first are the lead and the trail byte of a code unit that decodes to one
/// character without an error; the other two are a target as in any record.
pub proof fn law_code_unit_records(bytes: Seq<u8>, off: int)
    requires
        0 <= off,
        off + 4 <= bytes.len(),
    ensures
        is_record(pair_at(bytes, off), KeyMode::ShiftJis) <==> {
            let (trail, lead) = (bytes[off], bytes[off + 1]);
            let (text, had_errors) = shift_jis_decoding(seq![lead, trail]);
            let target = bytes[off + 2] + 256 * bytes[off + 3];
            &&& 0x81 <= lead <= 0x9F || 0xE0 <= lead <= 0xEF
            &&& 0x40 <= trail <= 0x7E || 0x80 <= trail <= 0xFC
            &&& !had_errors
            &&& text.len() == 1
            &&& text[0] != '\0'
            &&& 0xA0 <= target
            &&& !(0xD800 <= target <= 0xDFFF)
            &&& target != 0xFFFD
        },
{
    let key = pair_at(bytes, off).0;
    assert(key == bytes[off] + 256 * bytes[off + 1]);
    assert((key / 256) as u8 == bytes[off + 1]);
    assert((key % 256) as u8 == bytes[off]);
}

/// The key and the target of a record are its four bytes, low byte first.
pub proof fn law_records_are_little_endian(bytes: Seq<u8>, off: int)
    requires
        0 <= off,
        off + 4 <= bytes.len(),
    ensures
        pair_at(bytes, off).0 == bytes[off] + 256 * bytes[off + 1],
        pair_at(bytes, off).1 == bytes[off + 2] + 256 * bytes[off + 3],
{
}

/// Pairs with character keys are a table exactly where there are 32 of them or
/// more, no half of a pair is a surrogate, no key occurs twice, and 30% of the
/// targets or more cannot be encoded in Shift-JIS.
pub proof fn law_gates_of_character_keys(pairs: Seq<(u16, u16)>)
    ensures
        is_table(pairs, KeyMode::Unicode) <==> {
            &&& pairs.len() >= 32
            &&& forall|i: int|
                #![trigger pairs[i]]
                0 <= i < pairs.len() ==> !(0xD800 <= pairs[i].0 <= 0xDFFF) && !(0xD800
                    <= pairs[i].1 <= 0xDFFF)
            &&& forall|i: int, j: int|
                #![trigger pairs[i], pairs[j]]
                0 <= i < j < pairs.len() ==> pairs[i].0 != pairs[j].0
            &&& pairs.filter(|pair: (u16, u16)| shift_jis_unmappable(pair.1 as char)).len() * 100
                >= pairs.len() * 30
        },
{
    let keys = normalized(pairs, KeyMode::Unicode);
    lemma_unmappable_targets(pairs);
    if forall|i: int|
        #![trigger pairs[i]]
        0 <= i < pairs.len() ==> !(0xD800 <= pairs[i].0 <= 0xDFFF) && !(0xD800 <= pairs[i].1
            <= 0xDFFF) {
        assert(keys =~= pairs) by {
            assert forall|i: int| 0 <= i < pairs.len() implies #[trigger] keys[i] == pairs[i] by {
                assert(is_scalar(pairs[i].0 as int));
            }
        }
        assert forall|i: int| 0 <= i < pairs.len() implies is_readable(
            #[trigger] pairs[i],
            KeyMode::Unicode,
        ) by {
            assert(is_scalar(pairs[i].0 as int));
        }
    } else {
        let i = choose|i: int|
            #![trigger pairs[i]]
            0 <= i < pairs.len() && !(!(0xD800 <= pairs[i].0 <= 0xDFFF) && !(0xD800 <= pairs[i].1
                <= 0xDFFF));
        assert(!is_readable(pairs[i], KeyMode::Unicode));
    }
}

/// Pairs with code unit keys are a table exactly where there are 32 of them or
/// more, every key stands for a character that fits 16 bits and no two for the
/// same one, no target is a surrogate, and 30% of the targets or more cannot be
/// encoded in Shift-JIS.
pub proof fn law_gates_of_code_unit_keys(pairs: Seq<(u16, u16)>)
    ensures
        is_table(pairs, KeyMode::ShiftJis) <==> {
            &&& pairs.len() >= 32
            &&& forall|i: int|
                #![trigger pairs[i]]
                0 <= i < pairs.len() ==> code_unit_char(pairs[i].0) is Some && code_unit_char(
                    pairs[i].0,
                )->0 as int <= 0xFFFF && !(0xD800 <= pairs[i].1 <= 0xDFFF)
            &&& forall|i: int, j: int|
                #![trigger pairs[i], pairs[j]]
                0 <= i < j < pairs.len() ==> code_unit_char(pairs[i].0) != code_unit_char(
                    pairs[j].0,
                )
            &&& pairs.filter(|pair: (u16, u16)| shift_jis_unmappable(pair.1 as char)).len() * 100
                >= pairs.len() * 30
        },
{
    let keys = normalized(pairs, KeyMode::ShiftJis);
    lemma_unmappable_targets(pairs);
    if forall|i: int|
        #![trigger pairs[i]]
        0 <= i < pairs.len() ==> code_unit_char(pairs[i].0) is Some && code_unit_char(
            pairs[i].0,
        )->0 as int <= 0xFFFF && !(0xD800 <= pairs[i].1 <= 0xDFFF) {
        assert forall|i: int| 0 <= i < pairs.len() implies is_readable(
            #[trigger] pairs[i],
            KeyMode::ShiftJis,
        ) by {}
        assert forall|i: int, j: int|
            #![trigger pairs[i], pairs[j]]
            #![trigger keys[i], keys[j]]
            0 <= i < j < pairs.len() implies (keys[i].0 == keys[j].0) == (code_unit_char(pairs[i].0)
            == code_unit_char(pairs[j].0)) by {
            lemma_char_code(code_unit_char(pairs[i].0)->0);
            lemma_char_code(code_unit_char(pairs[j].0)->0);
        }
    } else {
        let i = choose|i: int|
            #![trigger pairs[i]]
            0 <= i < pairs.len() && !(code_unit_char(pairs[i].0) is Some && code_unit_char(
                pairs[i].0,
            )->0 as int <= 0xFFFF && !(0xD800 <= pairs[i].1 <= 0xDFFF));
        assert(!is_readable(pairs[i], KeyMode::ShiftJis));
    }
}

proof fn lemma_unmappable_targets(pairs: Seq<(u16, u16)>)
    ensures
        (forall|i: int| #![trigger pairs[i]] 0 <= i < pairs.len() ==> is_scalar(pairs[i].1 as int))
            ==> non_sjis_targets(pairs) == pairs.filter(
            |pair: (u16, u16)| shift_jis_unmappable(pair.1 as char),
        ),
    decreases pairs.len(),
{
    reveal_with_fuel(Seq::filter, 2);
    if pairs.len() > 0 {
        let front = pairs.drop_last();
        lemma_unmappable_targets(front);
        if forall|i: int|
            #![trigger pairs[i]]
            0 <= i < pairs.len() ==> is_scalar(pairs[i].1 as int) {
            assert forall|i: int| #![trigger front[i]] 0 <= i < front.len() implies is_scalar(
                front[i].1 as int,
            ) by {
                assert(front[i] == pairs[i]);
            }
            assert(pairs[pairs.len() - 1] == pairs.last());
        }
    }
}

/// A table with character keys maps each key to its target, and nothing else.
pub proof fn law_character_keys_are_mapped(pairs: Seq<(u16, u16)>)
    requires
        forall|i: int|
            #![trigger pairs[i]]
            0 <= i < pairs.len() ==> !(0xD800 <= pairs[i].0 <= 0xDFFF) && !(0xD800 <= pairs[i].1
                <= 0xDFFF),
        forall|i: int, j: int|
            #![trigger pairs[i], pairs[j]]
            0 <= i < j < pairs.len() ==> pairs[i].0 != pairs[j].0,
    ensures
        ({
            let table = table_mapping(pairs, KeyMode::Unicode);
            &&& table.dom().len() == pairs.len()
            &&& forall|i: int|
                #![trigger pairs[i]]
                0 <= i < pairs.len() ==> table.contains_key(pairs[i].0 as char)
                    && table[pairs[i].0 as char] == pairs[i].1 as char
        }),
{
    let keys = normalized(pairs, KeyMode::Unicode);
    assert forall|i: int| 0 <= i < pairs.len() implies #[trigger] keys[i] == pairs[i] by {
        assert(is_scalar(pairs[i].0 as int));
    }
    assert(keys =~= pairs);
    law_pairs_are_mapped_one_by_one(pairs);
}

/// A table with code unit keys maps the character that each key stands for to
/// its target, and nothing else.
pub proof fn law_code_unit_keys_are_mapped(pairs: Seq<(u16, u16)>)
    requires
        forall|i: int|
            #![trigger pairs[i]]
            0 <= i < pairs.len() ==> code_unit_char(pairs[i].0) is Some && code_unit_char(
                pairs[i].0,
            )->0 as int <= 0xFFFF && !(0xD800 <= pairs[i].1 <= 0xDFFF),
        forall|i: int, j: int|
            #![trigger pairs[i], pairs[j]]
            0 <= i < j < pairs.len() ==> code_unit_char(pairs[i].0) != code_unit_char(pairs[j].0),
    ensures
        ({
            let table = table_mapping(pairs, KeyMode::ShiftJis);
            &&& table.dom().len() == pairs.len()
            &&& forall|i: int|
                #![trigger pairs[i]]
                0 <= i < pairs.len() ==> table.contains_key(code_unit_char(pairs[i].0)->0)
                    && table[code_unit_char(pairs[i].0)->0] == pairs[i].1 as char
        }),
{
    let keys = normalized(pairs, KeyMode::ShiftJis);
    assert forall|i: int| 0 <= i < pairs.len() implies (#[trigger] keys[i]).0 as char
        == code_unit_char(pairs[i].0)->0 && keys[i].1 == pairs[i].1 && !(0xD800 <= keys[i].0
        <= 0xDFFF) by {
        assert(code_unit_char(pairs[i].0) is Some);
        lemma_char_code(code_unit_char(pairs[i].0)->0);
    }
    assert forall|i: int, j: int|
        #![trigger keys[i], keys[j]]
        0 <= i < j < keys.len() implies keys[i].0 != keys[j].0 by {
        assert(code_unit_char(pairs[i].0) != code_unit_char(pairs[j].0));
        assert(keys[i].0 as char == code_unit_char(pairs[i].0)->0);
        assert(keys[j].0 as char == code_unit_char(pairs[j].0)->0);
    }
    assert forall|i: int| #![trigger keys[i]] 0 <= i < keys.len() implies !(0xD800 <= keys[i].0
        <= 0xDFFF) && !(0xD800 <= keys[i].1 <= 0xDFFF) by {
        assert(pairs[i].1 == keys[i].1);
    }
    law_pairs_are_mapped_one_by_one(keys);
    assert forall|i: int| #![trigger pairs[i]] 0 <= i < pairs.len() implies table_mapping(
        pairs,
        KeyMode::ShiftJis,
    ).contains_key(code_unit_char(pairs[i].0)->0) && table_mapping(
        pairs,
        KeyMode::ShiftJis,
    )[code_unit_char(pairs[i].0)->0] == pairs[i].1 as char by {
        assert(keys[i].0 as char == code_unit_char(pairs[i].0)->0);
    }
}

/// A run goes as far as there are records: it is `n` records long exactly where
/// `n` records follow each other from its start and no record follows them.
pub proof fn law_run_takes_all_records(bytes: Seq<u8>, off: int, mode: KeyMode, n: nat)
    requires
        0 <= off,
        off + 4 * n <= bytes.len(),
        forall|i: int|
            0 <= i < n ==> is_record(#[trigger] pair_at(bytes, off + 4 * i), mode),
        off + 4 * n + 4 > bytes.len() || !is_record(pair_at(bytes, off + 4 * n), mode),
    ensures
        run_end(bytes, off, mode) == off + 4 * n,
        run_at(bytes, off, mode).len() == n,
        forall|i: int|
            0 <= i < n ==> #[trigger] run_at(bytes, off, mode)[i] == pair_at(bytes, off + 4 * i),
    decreases n,
{
    if n > 0 {
        assert(is_record(pair_at(bytes, off + 4 * 0), mode));
        assert forall|i: int| 0 <= i < n - 1 implies is_record(
            #[trigger] pair_at(bytes, off + 4 + 4 * i),
            mode,
        ) by {
            assert(is_record(pair_at(bytes, off + 4 * (i + 1)), mode));
        }
        law_run_takes_all_records(bytes, off + 4, mode, (n - 1) as nat);
    }
}

/// The candidates of a key mode are the tables that the sweep takes, one for one
/// and in the order of the bytes.
pub proof fn law_one_candidate_per_table(bytes: Seq<u8>, mode: KeyMode)
    ensures
        candidates(bytes, mode).len() == table_starts(bytes, 0, mode).len(),
        forall|k: int|
            0 <= k < candidates(bytes, mode).len() ==> #[trigger] candidates(bytes, mode)[k]
                == table_mapping(run_at(bytes, table_starts(bytes, 0, mode)[k], mode), mode),
{
}

/// The binary is swept in both key modes: all candidates are those with character
/// keys and then those with code unit keys.
pub proof fn law_both_key_modes_are_swept(bytes: Seq<u8>)
    ensures
        ({
            let by_char = candidates(bytes, KeyMode::Unicode);
            let by_code_unit = candidates(bytes, KeyMode::ShiftJis);
            let all = all_candidates(bytes);
            &&& all.len() == by_char.len() + by_code_unit.len()
            &&& forall|k: int| 0 <= k < by_char.len() ==> all[k] == #[trigger] by_char[k]
            &&& forall|k: int|
                0 <= k < by_code_unit.len() ==> all[by_char.len() + k] == #[trigger] by_code_unit[k]
        }),
{
}

/// What a list of tables maps is what each of them maps, in their order.
pub proof fn law_mappings_one_by_one(found: Seq<Codepage>)
    ensures
        mappings(found).len() == found.len(),
        forall|k: int| 0 <= k < found.len() ==> #[trigger] mappings(found)[k] == found[k]@,
{
}

/// The four bytes at `off` are a key from U+3000 to U+9FFF that Shift-JIS can
/// encode and a target that is no control, no surrogate and not U+FFFD.
pub open spec fn holds_character_entry(bytes: Seq<u8>, off: int) -> bool {
    let key = bytes[off] + 256 * bytes[off + 1];
    let target = bytes[off + 2] + 256 * bytes[off + 3];
    &&& 0x3000 <= key <= 0x9FFF
    &&& !shift_jis_unmappable(key as char)
    &&& 0xA0 <= target
    &&& !(0xD800 <= target <= 0xDFFF)
    &&& target != 0xFFFD
}

/// The four bytes at `off` are a code unit, trail byte first, that decodes to one
/// character, and a target that is no control, no surrogate and not U+FFFD.
pub open spec fn holds_code_unit_entry(bytes: Seq<u8>, off: int) -> bool {
    let (trail, lead) = (bytes[off], bytes[off + 1]);
    let (text, had_errors) = shift_jis_decoding(seq![lead, trail]);
    let target = bytes[off + 2] + 256 * bytes[off + 3];
    &&& 0x81 <= lead <= 0x9F || 0xE0 <= lead <= 0xEF
    &&& 0x40 <= trail <= 0x7E || 0x80 <= trail <= 0xFC
    &&& !had_errors
    &&& text.len() == 1
    &&& text[0] != '\0'
    &&& 0xA0 <= target
    &&& !(0xD800 <= target <= 0xDFFF)
    &&& target != 0xFFFD
}

/// `n` entries follow each other from `off` on.
pub open spec fn holds_entries(bytes: Seq<u8>, off: int, n: int, mode: KeyMode) -> bool {
    forall|i: int|
        0 <= i < n ==> match mode {
            KeyMode::Unicode => holds_character_entry(bytes, #[trigger] nth(off, i)),
            KeyMode::ShiftJis => holds_code_unit_entry(bytes, nth(off, i)),
        }
}

/// Where the `i`th record of an array at `off` stands.
pub open spec fn nth(off: int, i: int) -> int {
    off + 4 * i
}

proof fn lemma_entry_is_record(bytes: Seq<u8>, off: int, mode: KeyMode)
    requires
        0 <= off,
        off + 4 <= bytes.len(),
    ensures
        is_record(pair_at(bytes, off), mode) == match mode {
            KeyMode::Unicode => holds_character_entry(bytes, off),
            KeyMode::ShiftJis => holds_code_unit_entry(bytes, off),
        },
{
    law_character_records(bytes, off);
    law_code_unit_records(bytes, off);
}

/// No table that starts before an array reaches into it, where no 32 entries or
/// more in a row do.
proof fn lemma_no_table_reaches_in(bytes: Seq<u8>, start: int, mode: KeyMode)
    requires
        forall|p: int, n: int|
            0 <= p < start && p % 2 == 0 && n >= 32 && start < p + 4 * n <= bytes.len()
                ==> !#[trigger] holds_entries(bytes, p, n, mode),
    ensures
        forall|p: int|
            0 <= p < start && p % 2 == 0 && #[trigger] table_at(bytes, p, mode) ==> run_end(
                bytes,
                p,
                mode,
            ) <= start,
{
    assert forall|p: int|
        0 <= p < start && p % 2 == 0 && #[trigger] table_at(bytes, p, mode) implies run_end(
        bytes,
        p,
        mode,
    ) <= start by {
        let run = run_at(bytes, p, mode);
        let n = run.len() as int;
        lemma_run_end(bytes, p, mode);
        assert(holds_entries(bytes, p, n, mode)) by {
            assert forall|i: int| 0 <= i < n implies match mode {
                KeyMode::Unicode => holds_character_entry(bytes, #[trigger] nth(p, i)),
                KeyMode::ShiftJis => holds_code_unit_entry(bytes, nth(p, i)),
            } by {
                lemma_run_record(bytes, p, mode, i);
                lemma_entry_is_record(bytes, p + 4 * i, mode);
            }
        }
        if n > 0 {
            lemma_run_record(bytes, p, mode, n - 1);
        }
        assert(run_end(bytes, p, mode) == p + 4 * n);
        if run.len() > 0 {
            assert(p + 4 <= bytes.len());
        }
    }
}

/// A table with character keys in a binary is found, whatever its substitutes
/// are: 32 pairs or more, with different keys from U+3000 to U+9FFF that
/// Shift-JIS can encode, with targets that are U+00A0 or more, no surrogates and
/// not U+FFFD, and of which 30% or more cannot be encoded, written low byte first
/// at an even offset. A candidate then maps each key to its target and nothing
/// else, unless another entry follows right behind, or 32 entries or more in a
/// row start before it and reach into it.
pub proof fn law_character_table_in_a_binary_is_found(
    front: Seq<u8>,
    pairs: Seq<(u16, u16)>,
    back: Seq<u8>,
)
    requires
        front.len() % 2 == 0,
        pairs.len() >= 32,
        forall|i: int|
            #![trigger pairs[i]]
            0 <= i < pairs.len() ==> 0x3000 <= pairs[i].0 <= 0x9FFF && !shift_jis_unmappable(
                pairs[i].0 as char,
            ) && 0xA0 <= pairs[i].1 && !(0xD800 <= pairs[i].1 <= 0xDFFF) && pairs[i].1 != 0xFFFD,
        forall|i: int, j: int|
            #![trigger pairs[i], pairs[j]]
            0 <= i < j < pairs.len() ==> pairs[i].0 != pairs[j].0,
        pairs.filter(|pair: (u16, u16)| shift_jis_unmappable(pair.1 as char)).len() * 100
            >= pairs.len() * 30,
        back.len() < 4 || !holds_character_entry(back, 0),
        forall|p: int, n: int|
            0 <= p < front.len() && p % 2 == 0 && n >= 32 && front.len() < p + 4 * n <= front.len()
                + 4 * pairs.len() + back.len() ==> !#[trigger] holds_entries(
                front + encoded(pairs) + back,
                p,
                n,
                KeyMode::Unicode,
            ),
    ensures
        exists|table: Map<char, char>| #[trigger]
            all_candidates(front + encoded(pairs) + back).contains(table) && {
                &&& table.dom().len() == pairs.len()
                &&& forall|i: int|
                    #![trigger pairs[i]]
                    0 <= i < pairs.len() ==> table.contains_key(pairs[i].0 as char)
                        && table[pairs[i].0 as char] == pairs[i].1 as char
            },
{
    let mode = KeyMode::Unicode;
    let bytes = front + encoded(pairs) + back;
    law_gates_of_character_keys(pairs);
    assert forall|i: int| 0 <= i < pairs.len() implies is_record(#[trigger] pairs[i], mode) by {
        lemma_encoded_record(front, pairs, back, i);
        law_character_records(bytes, front.len() + 4 * i);
    }
    if back.len() >= 4 {
        lemma_entry_is_record(back, 0, mode);
    }
    lemma_no_table_reaches_in(bytes, front.len() as int, mode);
    law_written_table_is_found(front, pairs, back, mode);
    law_character_keys_are_mapped(pairs);
    law_both_key_modes_are_swept(bytes);
    let table = table_mapping(pairs, mode);
    let k = choose|k: int|
        0 <= k < candidates(bytes, mode).len() && candidates(bytes, mode)[k] == table;
    assert(all_candidates(bytes)[k] == candidates(bytes, mode)[k]);
    assert(all_candidates(bytes).contains(table));
}

/// A table with code unit keys in a binary is found in the same way: 32 pairs or
/// more, whose keys are code units that decode to one character each, none to the
/// same one, with targets as for character keys. A candidate then maps the
/// character of each key to its target and nothing else.
pub proof fn law_code_unit_table_in_a_binary_is_found(
    front: Seq<u8>,
    pairs: Seq<(u16, u16)>,
    shown: Seq<char>,
    back: Seq<u8>,
)
    requires
        front.len() % 2 == 0,
        pairs.len() >= 32,
        shown.len() == pairs.len(),
        forall|i: int|
            #![trigger pairs[i]]
            0 <= i < pairs.len() ==> {
                let (lead, trail) = ((pairs[i].0 / 256) as u8, (pairs[i].0 % 256) as u8);
                &&& 0x81 <= lead <= 0x9F || 0xE0 <= lead <= 0xEF
                &&& 0x40 <= trail <= 0x7E || 0x80 <= trail <= 0xFC
                &&& shift_jis_decoding(seq![lead, trail]) == (seq![shown[i]], false)
                &&& 0 < shown[i] as int <= 0xFFFF
                &&& 0xA0 <= pairs[i].1
                &&& !(0xD800 <= pairs[i].1 <= 0xDFFF)
                &&& pairs[i].1 != 0xFFFD
            },
        shown.no_duplicates(),
        pairs.filter(|pair: (u16, u16)| shift_jis_unmappable(pair.1 as char)).len() * 100
            >= pairs.len() * 30,
        back.len() < 4 || !holds_code_unit_entry(back, 0),
        forall|p: int, n: int|
            0 <= p < front.len() && p % 2 == 0 && n >= 32 && front.len() < p + 4 * n <= front.len()
                + 4 * pairs.len() + back.len() ==> !#[trigger] holds_entries(
                front + encoded(pairs) + back,
                p,
                n,
                KeyMode::ShiftJis,
            ),
    ensures
        exists|table: Map<char, char>| #[trigger]
            all_candidates(front + encoded(pairs) + back).contains(table) && {
                &&& table.dom().len() == pairs.len()
                &&& forall|i: int|
                    #![trigger shown[i]]
                    0 <= i < pairs.len() ==> table.contains_key(shown[i]) && table[shown[i]]
                        == pairs[i].1 as char
            },
{
    let bytes = front + encoded(pairs) + back;
    let table = table_mapping(pairs, KeyMode::ShiftJis);
    assert forall|i: int| #![trigger pairs[i]] 0 <= i < pairs.len() implies code_unit_char(
        pairs[i].0,
    ) == Some(shown[i]) by {
        law_code_unit_stands_for_its_decoding(pairs[i].0, shown[i]);
    }
    lemma_code_unit_table(front, pairs, back);
    assert(all_candidates(bytes).contains(table));
    assert forall|i: int| #![trigger shown[i]] 0 <= i < pairs.len() implies table.contains_key(
        shown[i],
    ) && table[shown[i]] == pairs[i].1 as char by {
        assert(code_unit_char(pairs[i].0) == Some(shown[i]));
    }
}

proof fn lemma_code_unit_table(front: Seq<u8>, pairs: Seq<(u16, u16)>, back: Seq<u8>)
    requires
        front.len() % 2 == 0,
        pairs.len() >= 32,
        forall|i: int|
            #![trigger pairs[i]]
            0 <= i < pairs.len() ==> code_unit_char(pairs[i].0) is Some && code_unit_char(
                pairs[i].0,
            )->0 as int <= 0xFFFF && 0xA0 <= pairs[i].1 && !(0xD800 <= pairs[i].1 <= 0xDFFF)
                && pairs[i].1 != 0xFFFD,
        forall|i: int, j: int|
            #![trigger pairs[i], pairs[j]]
            0 <= i < j < pairs.len() ==> code_unit_char(pairs[i].0) != code_unit_char(pairs[j].0),
        pairs.filter(|pair: (u16, u16)| shift_jis_unmappable(pair.1 as char)).len() * 100
            >= pairs.len() * 30,
        back.len() < 4 || !holds_code_unit_entry(back, 0),
        forall|p: int, n: int|
            0 <= p < front.len() && p % 2 == 0 && n >= 32 && front.len() < p + 4 * n <= front.len()
                + 4 * pairs.len() + back.len() ==> !#[trigger] holds_entries(
                front + encoded(pairs) + back,
                p,
                n,
                KeyMode::ShiftJis,
            ),
    ensures
        ({
            let table = table_mapping(pairs, KeyMode::ShiftJis);
            &&& all_candidates(front + encoded(pairs) + back).contains(table)
            &&& table.dom().len() == pairs.len()
            &&& forall|i: int|
                #![trigger pairs[i]]
                0 <= i < pairs.len() ==> table.contains_key(code_unit_char(pairs[i].0)->0)
                    && table[code_unit_char(pairs[i].0)->0] == pairs[i].1 as char
        }),
{
    let mode = KeyMode::ShiftJis;
    let bytes = front + encoded(pairs) + back;
    law_gates_of_code_unit_keys(pairs);
    if back.len() >= 4 {
        lemma_entry_is_record(back, 0, mode);
    }
    lemma_no_table_reaches_in(bytes, front.len() as int, mode);
    law_written_table_is_found(front, pairs, back, mode);
    law_code_unit_keys_are_mapped(pairs);
    law_both_key_modes_are_swept(bytes);
    let table = table_mapping(pairs, mode);
    let k = choose|k: int|
        0 <= k < candidates(bytes, mode).len() && candidates(bytes, mode)[k] == table;
    let at = candidates(bytes, KeyMode::Unicode).len() + k;
    assert(all_candidates(bytes)[at] == candidates(bytes, mode)[k]);
}

/// An array of records is written low byte first, key before target, without
/// gaps.
pub proof fn law_written_records_are_little_endian(pairs: Seq<(u16, u16)>, i: int)
    requires
        0 <= i < pairs.len(),
    ensures
        encoded(pairs).len() == 4 * pairs.len(),
        encoded(pairs)[4 * i] + 256 * encoded(pairs)[4 * i + 1] == pairs[i].0,
        encoded(pairs)[4 * i + 2] + 256 * encoded(pairs)[4 * i + 3] == pairs[i].1,
{
}

/// Whether a table starts at an offset depends on the run there alone, not on
/// where it stands.
pub proof fn law_run_decides_on_a_table(bytes: Seq<u8>, off: int, mode: KeyMode)
    ensures
        table_at(bytes, off, mode) <==> is_table(run_at(bytes, off, mode), mode),
{
}

} // verus!
