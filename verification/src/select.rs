//! Choosing the table that belongs to a release.
use crate::chars::{is_scalar, CharSet};
use crate::codepage::{
    distinct_keys, lemma_mapping_keys, lemma_mapping_size, mapping, scalar_pairs, Codepage,
};
use crate::scan::{lemma_distinct_keys_bound, mappings};
use vstd::prelude::*;

verus! {

broadcast use {vstd::map::group_map_axioms, vstd::set::group_set_axioms};

/// Share of a candidate's keys that must occur in the release's own text.
/// Substitutes are only in the table because the script uses them, so a table
/// that does not line up with the text is not a localization table. Erring
/// strict is deliberate: a missed table leaves the release as garbled as it
/// was, a wrong one rewrites readable text.
pub const MIN_SCRIPT_HIT_PERCENT: usize = 90;

/// How many of the table's substitutes occur in the text.
pub open spec fn hits(table: Map<char, char>, text: Set<char>) -> nat {
    table.dom().intersect(text).len()
}

/// Enough of the table's substitutes occur in the text.
pub open spec fn confirmed(table: Map<char, char>, text: Set<char>) -> bool {
    hits(table, text) * 100 >= table.dom().len() * MIN_SCRIPT_HIT_PERCENT
}

/// `a` explains the text better than `b`: it explains more of it, or as much
/// with fewer entries, since the others are unmatched.
pub open spec fn better(a: Map<char, char>, b: Map<char, char>, text: Set<char>) -> bool {
    hits(a, text) > hits(b, text) || hits(a, text) == hits(b, text) && a.dom().len() < b.dom().len()
}

/// The `k`th table is the one to choose: it is confirmed, no confirmed table is
/// better, and it is better than every confirmed one before it.
pub open spec fn is_choice(tables: Seq<Map<char, char>>, text: Set<char>, k: int) -> bool {
    &&& 0 <= k < tables.len()
    &&& confirmed(tables[k], text)
    &&& forall|j: int|
        #![trigger tables[j]]
        0 <= j < tables.len() && confirmed(tables[j], text) ==> !better(tables[j], tables[k], text)
    &&& forall|j: int|
        #![trigger tables[j]]
        0 <= j < k && confirmed(tables[j], text) ==> better(tables[k], tables[j], text)
}

/// `chosen` is what the tables and the text decide on: nothing where no table is
/// confirmed, the choice among the confirmed ones otherwise.
pub open spec fn is_selection(
    tables: Seq<Map<char, char>>,
    text: Set<char>,
    chosen: Option<Map<char, char>>,
) -> bool {
    match chosen {
        None => forall|j: int|
            #![trigger tables[j]]
            0 <= j < tables.len() ==> !confirmed(tables[j], text),
        Some(table) => exists|k: int| #[trigger] is_choice(tables, text, k) && table == tables[k],
    }
}

/// What an optional table maps.
pub open spec fn mapping_of(table: Option<Codepage>) -> Option<Map<char, char>> {
    match table {
        Some(t) => Some(t@),
        None => None,
    }
}

/// Counts the table's substitutes that occur in the text, and all of them.
pub fn count_hits(table: &Codepage, text: &CharSet) -> (counts: (usize, usize))
    ensures
        counts.0 == hits(table@, text@),
        counts.0 == table@.dom().intersect(text@).len(),
        counts.1 == table@.dom().len(),
        counts.0 <= counts.1 <= 0x1_0000,
        counts.1 > 0,
{
    let pairs = table.pairs();
    let mut count: usize = 0;
    let mut i: usize = 0;
    assert(mapping(pairs@.take(0)).dom().intersect(text@) =~= Set::<char>::empty());
    while i < pairs.len()
        invariant
            i <= pairs@.len(),
            distinct_keys(pairs@),
            scalar_pairs(pairs@),
            count == hits(mapping(pairs@.take(i as int)), text@),
            count <= i,
        decreases pairs@.len() - i,
    {
        let (key, _) = pairs[i];
        let ghost front = pairs@.take(i as int);
        let ghost c = key as char;
        proof {
            assert(is_scalar(pairs@[i as int].0 as int));
            assert(pairs@.take(i + 1).drop_last() =~= front);
            assert(mapping(pairs@.take(i + 1)).dom() =~= mapping(front).dom().insert(c));
            lemma_mapping_size(front);
            lemma_mapping_keys(front, c);
            assert(!mapping(front).contains_key(c));
            let old_hits = mapping(front).dom().intersect(text@);
            let new_hits = mapping(pairs@.take(i + 1)).dom().intersect(text@);
            if text@.contains(c) {
                assert(new_hits =~= old_hits.insert(c));
            } else {
                assert(new_hits =~= old_hits);
            }
        }
        if let Some(c) = char::from_u32(key as u32) {
            if text.contains(c) {
                count = count + 1;
            }
        }
        i = i + 1;
    }
    proof {
        assert(pairs@.take(pairs@.len() as int) =~= pairs@);
        lemma_mapping_size(pairs@);
        lemma_distinct_keys_bound(pairs@);
    }
    (count, pairs.len())
}

/// Picks the table that best explains the release's own text.
pub fn select(tables: &[Codepage], text: &CharSet) -> (chosen: Option<Codepage>)
    ensures
        is_selection(mappings(tables@), text@, mapping_of(chosen)),
        text@ == Set::<char>::empty() ==> chosen is None,
{
    let ghost maps = mappings(tables@);
    // The hits and the size of the best table so far, and where it stands.
    let mut best: Option<(usize, usize, usize)> = None;
    let mut i: usize = 0;
    while i < tables.len()
        invariant
            i <= tables@.len(),
            maps == mappings(tables@),
            match best {
                None => forall|j: int|
                    #![trigger maps[j]]
                    0 <= j < i ==> !confirmed(maps[j], text@),
                Some((best_hits, best_len, k)) => {
                    &&& k < i
                    &&& best_hits == hits(maps[k as int], text@)
                    &&& best_len == maps[k as int].dom().len()
                    &&& best_len > 0
                    &&& is_choice(maps.take(i as int), text@, k as int)
                },
            },
        decreases tables@.len() - i,
    {
        let (count, len) = count_hits(&tables[i], text);
        assert(maps[i as int] == tables@[i as int]@);
        if count * 100 >= len * MIN_SCRIPT_HIT_PERCENT {
            let is_better = match best {
                None => true,
                // The table explaining the most text wins; on a tie the
                // tightest one does, since its extra entries are unmatched.
                Some((best_hits, best_len, _)) => count > best_hits || (count == best_hits && len
                    < best_len),
            };
            if is_better {
                best = Some((count, len, i));
            }
        }
        i = i + 1;
    }
    assert(maps.take(maps.len() as int) =~= maps);
    match best {
        None => None,
        Some((_, _, k)) => {
            assert(is_choice(maps, text@, k as int));
            assert(text@ == Set::<char>::empty() ==> maps[k as int].dom().intersect(text@)
                =~= Set::<char>::empty());
            Some(tables[k].clone())
        },
    }
}

/// The tables and the text leave no doubt about what is selected.
pub proof fn law_selection_is_unique(
    tables: Seq<Map<char, char>>,
    text: Set<char>,
    a: Option<Map<char, char>>,
    b: Option<Map<char, char>>,
)
    requires
        is_selection(tables, text, a),
        is_selection(tables, text, b),
    ensures
        a == b,
{
    if let Some(table) = a {
        let k = choose|k: int| #[trigger] is_choice(tables, text, k) && table == tables[k];
        if let Some(other) = b {
            let l = choose|l: int| #[trigger] is_choice(tables, text, l) && other == tables[l];
            assert(!better(tables[l], tables[k], text));
            assert(!better(tables[k], tables[l], text));
        }
    }
}

/// Nothing read from the script means nothing to confirm a table against.
pub proof fn law_no_text_selects_nothing(
    tables: Seq<Map<char, char>>,
    chosen: Option<Map<char, char>>,
)
    requires
        is_selection(tables, Set::empty(), chosen),
        chosen is Some ==> chosen->0.dom().finite() && chosen->0.dom().len() > 0,
    ensures
        chosen is None,
{
    if let Some(table) = chosen {
        let k = choose|k: int|
            #[trigger] is_choice(tables, Set::empty(), k) && table == tables[k];
        assert(tables[k].dom().intersect(Set::empty()) =~= Set::empty());
    }
}

/// A table that some text confirms is confirmed by any text that holds it, so a
/// table shared by several scripts still validates as their characters
/// accumulate.
pub proof fn law_more_text_keeps_tables_confirmed(
    table: Map<char, char>,
    text: Set<char>,
    more: Set<char>,
)
    requires
        table.dom().finite(),
        text.subset_of(more),
        confirmed(table, text),
    ensures
        hits(table, text) <= hits(table, more),
        confirmed(table, more),
{
    vstd::set_lib::lemma_len_subset(table.dom().intersect(text), table.dom().intersect(more));
}

/// A table whose substitutes all occur in the text is confirmed.
pub proof fn law_full_match_is_confirmed(table: Map<char, char>, text: Set<char>)
    requires
        table.dom().subset_of(text),
    ensures
        confirmed(table, text),
{
    assert(table.dom().intersect(text) =~= table.dom());
}

/// Where a table is confirmed, one is selected, and it explains at least as
/// much of the text.
pub proof fn law_confirmed_table_is_not_passed_over(
    tables: Seq<Map<char, char>>,
    text: Set<char>,
    k: int,
    chosen: Option<Map<char, char>>,
)
    requires
        0 <= k < tables.len(),
        confirmed(tables[k], text),
        is_selection(tables, text, chosen),
    ensures
        chosen is Some,
        confirmed(chosen->0, text),
        hits(chosen->0, text) >= hits(tables[k], text),
{
    assert(chosen is Some);
    let l = choose|l: int| #[trigger] is_choice(tables, text, l) && chosen->0 == tables[l];
    assert(!better(tables[k], tables[l], text));
}

/// A table of which less than 90% of the substitutes occur in the text is never
/// selected, however many they are: whatever is selected is one of the tables,
/// and a hundred times its substitutes in the text are at least ninety times all
/// its entries.
pub proof fn law_selected_table_matches_the_text(
    tables: Seq<Map<char, char>>,
    text: Set<char>,
    table: Map<char, char>,
)
    requires
        is_selection(tables, text, Some(table)),
    ensures
        tables.contains(table),
        table.dom().intersect(text).len() * 100 >= table.dom().len() * 90,
{
    let k = choose|k: int| #[trigger] is_choice(tables, text, k) && table == tables[k];
    assert(tables[k] == table);
}

/// Nothing is selected exactly where every table falls short: each has less than
/// 90% of its substitutes in the text.
pub proof fn law_nothing_is_selected_below_the_gate(
    tables: Seq<Map<char, char>>,
    text: Set<char>,
    chosen: Option<Map<char, char>>,
)
    requires
        is_selection(tables, text, chosen),
    ensures
        chosen is None <==> forall|j: int|
            #![trigger tables[j]]
            0 <= j < tables.len() ==> tables[j].dom().intersect(text).len() * 100
                < tables[j].dom().len() * 90,
{
    if let Some(table) = chosen {
        let k = choose|k: int| #[trigger] is_choice(tables, text, k) && table == tables[k];
        assert(tables[k].dom().intersect(text).len() * 100 >= tables[k].dom().len() * 90);
    } else {
        assert forall|j: int|
            #![trigger tables[j]]
            0 <= j < tables.len() implies tables[j].dom().intersect(text).len() * 100
            < tables[j].dom().len() * 90 by {
            assert(!confirmed(tables[j], text));
        }
    }
}

/// Of the tables with 90% of their substitutes in the text, the one selected has
/// the most substitutes there. Among those it has the fewest entries, and among
/// those it is the first.
pub proof fn law_selected_table_is_the_best(
    tables: Seq<Map<char, char>>,
    text: Set<char>,
    table: Map<char, char>,
)
    requires
        is_selection(tables, text, Some(table)),
    ensures
        exists|k: int|
            #![trigger tables[k]]
            0 <= k < tables.len() && tables[k] == table && forall|j: int|
                #![trigger tables[j]]
                0 <= j < tables.len() && tables[j].dom().intersect(text).len() * 100
                    >= tables[j].dom().len() * 90 ==> {
                    let (mine, other) = (
                        table.dom().intersect(text).len(),
                        tables[j].dom().intersect(text).len(),
                    );
                    ||| mine > other
                    ||| mine == other && table.dom().len() < tables[j].dom().len()
                    ||| mine == other && table.dom().len() == tables[j].dom().len() && k <= j
                },
{
    let k = choose|k: int| #[trigger] is_choice(tables, text, k) && table == tables[k];
    assert(tables[k] == table);
    assert forall|j: int|
        #![trigger tables[j]]
        0 <= j < tables.len() && tables[j].dom().intersect(text).len() * 100
            >= tables[j].dom().len() * 90 implies {
        let (mine, other) = (table.dom().intersect(text).len(), tables[j].dom().intersect(text).len());
        ||| mine > other
        ||| mine == other && table.dom().len() < tables[j].dom().len()
        ||| mine == other && table.dom().len() == tables[j].dom().len() && k <= j
    } by {
        assert(confirmed(tables[j], text));
        assert(!better(tables[j], tables[k], text));
        if j < k {
            assert(better(tables[k], tables[j], text));
        }
    }
}

/// A table whose mapping is asked for gives its own, and no table none.
pub proof fn law_mapping_of_a_table(table: Option<Codepage>)
    ensures
        mapping_of(table) is Some <==> table is Some,
        table matches Some(t) ==> mapping_of(table) == Some(t@),
{
}

} // verus!
