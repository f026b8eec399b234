//! What a stated mapping promises.
use crate::chars::{in_bmp, lemma_char_code};
use crate::codepage::mapping;
use crate::uif::{
    field, field_pairs, item_pairs, keep, keep_all, kept_pairs, rule_pairs, stated_mapping,
    stated_pairs, text_field, zipped, ConfigTree, Kept,
};
use vstd::prelude::*;

verus! {

broadcast use {vstd::map::group_map_axioms, vstd::set::group_set_axioms};

/// The `i`th pair is the first that maps `c` to another character.
pub open spec fn is_first_for(stated: Seq<(char, char)>, c: char, i: int) -> bool {
    &&& 0 <= i < stated.len()
    &&& stated[i].0 == c
    &&& stated[i].1 != c
    &&& forall|j: int| 0 <= j < i && (#[trigger] stated[j]).0 == c ==> stated[j].1 == c
}

/// No pair maps `c` to another character.
pub open spec fn is_unmapped(stated: Seq<(char, char)>, c: char) -> bool {
    forall|j: int| 0 <= j < stated.len() && (#[trigger] stated[j]).0 == c ==> stated[j].1 == c
}

/// Nothing kept, nothing settled.
spec fn nothing() -> Kept {
    Kept { pairs: Seq::empty(), seen: Set::empty() }
}

proof fn lemma_kept(stated: Seq<(char, char)>, c: char)
    ensures
        keep_all(nothing(), stated).seen.contains(c) == !is_unmapped(stated, c),
        is_unmapped(stated, c) ==> !mapping(keep_all(nothing(), stated).pairs).contains_key(c),
        forall|i: int| #[trigger]
            is_first_for(stated, c, i) ==> {
                let table = mapping(keep_all(nothing(), stated).pairs);
                &&& table.contains_key(c) == (in_bmp(c) && in_bmp(stated[i].1))
                &&& table.contains_key(c) ==> table[c] == stated[i].1
            },
    decreases stated.len(),
{
    if stated.len() > 0 {
        let front = stated.drop_last();
        let pair = stated.last();
        lemma_kept(front, c);
        let before = keep_all(nothing(), front);
        let after = keep(before, pair);
        lemma_char_code(pair.0);
        lemma_char_code(pair.1);
        lemma_kept(front, pair.0);
        assert(stated[stated.len() - 1] == pair);
        assert(forall|j: int| 0 <= j < front.len() ==> #[trigger] front[j] == stated[j]);
        if is_unmapped(front, c) {
            assert forall|j: int| 0 <= j < stated.len() - 1 && (#[trigger] stated[j]).0
                == c implies stated[j].1 == c by {
                assert(front[j] == stated[j]);
            }
        } else {
            let j = choose|j: int|
                0 <= j < front.len() && (#[trigger] front[j]).0 == c && front[j].1 != c;
            assert(stated[j].0 == c && stated[j].1 != c);
        }
        if in_bmp(pair.0) && in_bmp(pair.1) {
            assert(before.pairs.push((pair.0 as u16, pair.1 as u16)).drop_last() =~= before.pairs);
        }
        assert forall|i: int| #[trigger] is_first_for(stated, c, i) implies {
            let table = mapping(keep_all(nothing(), stated).pairs);
            &&& table.contains_key(c) == (in_bmp(c) && in_bmp(stated[i].1))
            &&& table.contains_key(c) ==> table[c] == stated[i].1
        } by {
            if i < front.len() {
                assert(front[i] == stated[i]);
                assert(is_first_for(front, c, i));
            } else {
                assert(is_unmapped(front, c));
            }
        }
    }
}

/// A repeated substitute keeps its first mapping: the first pair that maps it to
/// another character decides, and maps it exactly where both characters fit 16
/// bits.
pub proof fn law_first_mapping_wins(tree: ConfigTree, c: char, i: int)
    requires
        is_first_for(stated_pairs(tree), c, i),
    ensures
        mapping(kept_pairs(tree)).contains_key(c) == (in_bmp(c) && in_bmp(stated_pairs(tree)[i].1)),
        mapping(kept_pairs(tree)).contains_key(c) ==> mapping(kept_pairs(tree))[c] == stated_pairs(
            tree,
        )[i].1,
{
    lemma_kept(stated_pairs(tree), c);
}

/// A character that no pair maps to another one is not mapped.
pub proof fn law_unstated_characters_stay(tree: ConfigTree, c: char)
    requires
        is_unmapped(stated_pairs(tree), c),
    ensures
        !mapping(kept_pairs(tree)).contains_key(c),
{
    lemma_kept(stated_pairs(tree), c);
}

/// No character is mapped to itself.
pub proof fn law_no_character_maps_to_itself(tree: ConfigTree, c: char)
    requires
        mapping(kept_pairs(tree)).contains_key(c),
    ensures
        mapping(kept_pairs(tree))[c] != c,
{
    let stated = stated_pairs(tree);
    lemma_kept(stated, c);
    lemma_first_exists(stated, c);
    let i = choose|i: int| #[trigger] is_first_for(stated, c, i);
    assert(stated[i].1 != c);
}

proof fn lemma_first_exists(stated: Seq<(char, char)>, c: char)
    requires
        !is_unmapped(stated, c),
    ensures
        exists|i: int| #[trigger] is_first_for(stated, c, i),
    decreases stated.len(),
{
    let front = stated.drop_last();
    if is_unmapped(front, c) {
        assert forall|j: int| 0 <= j < stated.len() - 1 && (#[trigger] stated[j]).0
            == c implies stated[j].1 == c by {
            assert(front[j] == stated[j]);
        }
        assert(is_first_for(stated, c, stated.len() - 1));
    } else {
        lemma_first_exists(front, c);
        let i = choose|i: int| #[trigger] is_first_for(front, c, i);
        assert forall|j: int| 0 <= j < i && (#[trigger] stated[j]).0 == c implies stated[j].1
            == c by {
            assert(front[j] == stated[j]);
        }
        assert(front[i] == stated[i]);
        assert(is_first_for(stated, c, i));
    }
}

/// Pairs that match themselves carry no mapping.
pub proof fn law_self_pairs_carry_no_mapping(tree: ConfigTree)
    requires
        forall|i: int|
            0 <= i < stated_pairs(tree).len() ==> (#[trigger] stated_pairs(tree)[i]).0
                == stated_pairs(tree)[i].1,
    ensures
        stated_mapping(tree) is None,
{
    lemma_self_pairs(stated_pairs(tree));
}

proof fn lemma_self_pairs(stated: Seq<(char, char)>)
    requires
        forall|i: int| 0 <= i < stated.len() ==> (#[trigger] stated[i]).0 == stated[i].1,
    ensures
        keep_all(nothing(), stated) == nothing(),
    decreases stated.len(),
{
    if stated.len() > 0 {
        assert forall|i: int| 0 <= i < stated.drop_last().len() implies (
        #[trigger] stated.drop_last()[i]).0 == stated.drop_last()[i].1 by {
            assert(stated.drop_last()[i] == stated[i]);
        }
        assert(stated[stated.len() - 1] == stated.last());
        lemma_self_pairs(stated.drop_last());
    }
}

/// A rule counts wherever it sits: wrapping a document into an array, or into an
/// object under any name, changes nothing of what it states.
pub proof fn law_rules_count_anywhere(tree: ConfigTree, name: Seq<char>)
    ensures
        stated_pairs(ConfigTree::Array(seq![tree])) == stated_pairs(tree),
        stated_pairs(ConfigTree::Object(seq![(name, tree)])) == stated_pairs(tree),
{
    reveal_strlit("source_chars");
    reveal_strlit("target_chars");
    assert("source_chars"@[0] != "target_chars"@[0]);
    reveal_with_fuel(field, 3);
    reveal_with_fuel(item_pairs, 3);
    reveal_with_fuel(field_pairs, 3);
    reveal_with_fuel(stated_pairs, 3);
    let items = seq![tree];
    assert(stated_pairs(ConfigTree::Array(items)) =~= stated_pairs(tree));
    let fields = seq![(name, tree)];
    assert(fields.drop_first() =~= Seq::empty());
    assert(rule_pairs(fields) =~= Seq::empty());
    assert(stated_pairs(ConfigTree::Object(fields)) =~= stated_pairs(tree));
}

/// Where no name occurs twice, every field is found under its name.
pub proof fn law_every_field_is_found(fields: Seq<(Seq<char>, ConfigTree)>, i: int)
    requires
        0 <= i < fields.len(),
        forall|j: int, k: int|
            #![trigger fields[j], fields[k]]
            0 <= j < k < fields.len() ==> fields[j].0 != fields[k].0,
    ensures
        field(fields, fields[i].0) == Some(fields[i].1),
    decreases i,
{
    if i > 0 {
        let rest = fields.drop_first();
        assert(fields[0].0 != fields[i].0);
        assert(forall|j: int| 0 <= j < rest.len() ==> #[trigger] rest[j] == fields[j + 1]);
        law_every_field_is_found(rest, i - 1);
    }
}

/// The surplus of the longer string of a rule states nothing.
pub proof fn law_surplus_states_nothing(source: Seq<char>, target: Seq<char>, surplus: Seq<char>)
    requires
        source.len() == target.len(),
    ensures
        zipped(source + surplus, target) == zipped(source, target),
        zipped(source, target + surplus) == zipped(source, target),
{
    assert(zipped(source + surplus, target) =~= zipped(source, target));
    assert(zipped(source, target + surplus) =~= zipped(source, target));
}

/// Nowhere in the document is there a rule that states a pair.
pub open spec fn is_ruleless(tree: ConfigTree) -> bool
    decreases tree,
{
    match tree {
        ConfigTree::Object(fields) => rule_pairs(fields).len() == 0 && forall|i: int|
            0 <= i < fields.len() ==> is_ruleless((#[trigger] fields[i]).1),
        ConfigTree::Array(items) => forall|i: int|
            0 <= i < items.len() ==> is_ruleless(#[trigger] items[i]),
        _ => true,
    }
}

/// A config of another shape than the documented one yields no table rather
/// than a wrong one.
pub proof fn law_config_without_rules_states_nothing(tree: ConfigTree)
    requires
        is_ruleless(tree),
    ensures
        stated_pairs(tree).len() == 0,
        stated_mapping(tree) is None,
{
    lemma_ruleless(tree);
}

proof fn lemma_ruleless(tree: ConfigTree)
    requires
        is_ruleless(tree),
    ensures
        stated_pairs(tree).len() == 0,
    decreases tree, 0nat,
{
    match tree {
        ConfigTree::Object(fields) => lemma_ruleless_fields(fields, fields.len()),
        ConfigTree::Array(items) => lemma_ruleless_items(items, items.len()),
        _ => {},
    }
}

proof fn lemma_ruleless_fields(fields: Seq<(Seq<char>, ConfigTree)>, n: nat)
    requires
        n <= fields.len(),
        forall|i: int| 0 <= i < fields.len() ==> is_ruleless((#[trigger] fields[i]).1),
    ensures
        field_pairs(fields, n).len() == 0,
    decreases fields, n,
{
    if n > 0 {
        assert(decreases_to!(fields => fields[n - 1].1));
        lemma_ruleless_fields(fields, (n - 1) as nat);
        lemma_ruleless(fields[n - 1].1);
    }
}

proof fn lemma_ruleless_items(items: Seq<ConfigTree>, n: nat)
    requires
        n <= items.len(),
        forall|i: int| 0 <= i < items.len() ==> is_ruleless(#[trigger] items[i]),
    ensures
        item_pairs(items, n).len() == 0,
    decreases items, n,
{
    if n > 0 {
        assert(decreases_to!(items => items[n - 1]));
        lemma_ruleless_items(items, (n - 1) as nat);
        lemma_ruleless(items[n - 1]);
    }
}

/// Every position that both strings of a rule reach states its pair.
pub proof fn law_every_position_states_its_pair(source: Seq<char>, target: Seq<char>)
    ensures
        zipped(source, target).len() <= source.len(),
        zipped(source, target).len() <= target.len(),
        zipped(source, target).len() == source.len() || zipped(source, target).len()
            == target.len(),
        forall|i: int|
            0 <= i < source.len() && i < target.len() ==> #[trigger] zipped(source, target)[i] == (
                source[i],
                target[i],
            ),
{
}

/// A field is found exactly where there is one of that name, and the first of
/// that name is.
pub proof fn law_first_field_of_a_name_is_found(
    fields: Seq<(Seq<char>, ConfigTree)>,
    name: Seq<char>,
)
    ensures
        field(fields, name) is None ==> forall|i: int|
            0 <= i < fields.len() ==> (#[trigger] fields[i]).0 != name,
        field(fields, name) is Some ==> exists|i: int|
            #![trigger fields[i]]
            0 <= i < fields.len() && fields[i] == (name, field(fields, name)->0) && forall|j: int|
                0 <= j < i ==> (#[trigger] fields[j]).0 != name,
    decreases fields.len(),
{
    if fields.len() > 0 && fields[0].0 != name {
        let rest = fields.drop_first();
        law_first_field_of_a_name_is_found(rest, name);
        assert(forall|j: int| 0 <= j < rest.len() ==> #[trigger] rest[j] == fields[j + 1]);
        if field(fields, name) is None {
            assert forall|i: int| 0 <= i < fields.len() implies (#[trigger] fields[i]).0 != name by {
                if i > 0 {
                    assert(rest[i - 1].0 != name);
                }
            }
        } else {
            let i = choose|i: int|
                #![trigger rest[i]]
                0 <= i < rest.len() && rest[i] == (name, field(rest, name)->0) && forall|j: int|
                    0 <= j < i ==> (#[trigger] rest[j]).0 != name;
            assert(fields[i + 1] == rest[i]);
            assert forall|j: int| 0 <= j < i + 1 implies (#[trigger] fields[j]).0 != name by {
                if j > 0 {
                    assert(rest[j - 1].0 != name);
                }
            }
        }
    }
}

/// The object has a text under the name, as its only field of that name.
pub open spec fn has_text(
    fields: Seq<(Seq<char>, ConfigTree)>,
    name: Seq<char>,
    text: Seq<char>,
) -> bool {
    exists|i: int|
        #![trigger fields[i]]
        0 <= i < fields.len() && fields[i] == (name, ConfigTree::Text(text)) && forall|j: int|
            0 <= j < fields.len() && j != i ==> (#[trigger] fields[j]).0 != name
}

/// Nothing in the object says that it is something else than a rule: whatever
/// text stands under `type` is `replace_chars`.
pub open spec fn may_be_rule(fields: Seq<(Seq<char>, ConfigTree)>) -> bool {
    forall|i: int|
        0 <= i < fields.len() && (#[trigger] fields[i]).0 == "type"@ ==> (fields[i].1 is Text
            ==> fields[i].1 == ConfigTree::Text("replace_chars"@))
}

proof fn lemma_text_found(
    fields: Seq<(Seq<char>, ConfigTree)>,
    name: Seq<char>,
    text: Seq<char>,
)
    requires
        has_text(fields, name, text),
    ensures
        text_field(fields, name) == Some(text),
{
    law_first_field_of_a_name_is_found(fields, name);
    let i = choose|i: int|
        #![trigger fields[i]]
        0 <= i < fields.len() && fields[i] == (name, ConfigTree::Text(text)) && forall|j: int|
            0 <= j < fields.len() && j != i ==> (#[trigger] fields[j]).0 != name;
    assert(fields[i].0 == name);
}

proof fn lemma_rule_pairs(
    fields: Seq<(Seq<char>, ConfigTree)>,
    source: Seq<char>,
    target: Seq<char>,
)
    requires
        may_be_rule(fields),
        has_text(fields, "source_chars"@, source),
        has_text(fields, "target_chars"@, target),
    ensures
        rule_pairs(fields) == zipped(source, target),
{
    lemma_text_found(fields, "source_chars"@, source);
    lemma_text_found(fields, "target_chars"@, target);
    law_first_field_of_a_name_is_found(fields, "type"@);
    if let Some(kind) = text_field(fields, "type"@) {
        let i = choose|i: int|
            #![trigger fields[i]]
            0 <= i < fields.len() && fields[i] == ("type"@, field(fields, "type"@)->0);
        assert(fields[i] == ("type"@, ConfigTree::Text(kind)));
    }
}

/// What an object states of its own comes first: an object that is a rule states
/// the pairs of its two strings, position by position, before all that stands
/// inside it.
pub proof fn law_rule_states_its_pairs_first(
    fields: Seq<(Seq<char>, ConfigTree)>,
    source: Seq<char>,
    target: Seq<char>,
    i: int,
)
    requires
        may_be_rule(fields),
        has_text(fields, "source_chars"@, source),
        has_text(fields, "target_chars"@, target),
        0 <= i < source.len(),
        i < target.len(),
    ensures
        i < stated_pairs(ConfigTree::Object(fields)).len(),
        stated_pairs(ConfigTree::Object(fields))[i] == (source[i], target[i]),
{
    lemma_rule_pairs(fields, source, target);
}

/// A rule is read to its end: where no substitute is repeated and all characters
/// fit 16 bits, the table of an object that is a rule maps the character at each
/// position of `source_chars` to the one at that position of `target_chars`,
/// unless they are the same.
pub proof fn law_rule_maps_every_position(
    fields: Seq<(Seq<char>, ConfigTree)>,
    source: Seq<char>,
    target: Seq<char>,
    i: int,
)
    requires
        may_be_rule(fields),
        has_text(fields, "source_chars"@, source),
        has_text(fields, "target_chars"@, target),
        source.no_duplicates(),
        forall|j: int| 0 <= j < source.len() ==> #[trigger] source[j] as int <= 0xFFFF,
        forall|j: int| 0 <= j < target.len() ==> #[trigger] target[j] as int <= 0xFFFF,
        0 <= i < source.len(),
        i < target.len(),
        source[i] != target[i],
    ensures
        stated_mapping(ConfigTree::Object(fields)) matches Some(table) && table.contains_key(
            source[i],
        ) && table[source[i]] == target[i],
{
    let tree = ConfigTree::Object(fields);
    let stated = stated_pairs(tree);
    law_rule_states_its_pairs_first(fields, source, target, i);
    assert forall|j: int| 0 <= j < i && (#[trigger] stated[j]).0 == source[i] implies stated[j].1
        == source[i] by {
        law_rule_states_its_pairs_first(fields, source, target, j);
        assert(source[j] != source[i]);
    }
    assert(stated[i] == (source[i], target[i]));
    assert(source[i] as int <= 0xFFFF && target[i] as int <= 0xFFFF);
    law_mapping_follows_first_pair(tree, i);
}

/// The first pair that maps a character to another one decides: where both fit
/// 16 bits the document's table maps the one to the other.
pub proof fn law_mapping_follows_first_pair(tree: ConfigTree, i: int)
    requires
        0 <= i < stated_pairs(tree).len(),
        stated_pairs(tree)[i].0 != stated_pairs(tree)[i].1,
        stated_pairs(tree)[i].0 as int <= 0xFFFF,
        stated_pairs(tree)[i].1 as int <= 0xFFFF,
        forall|j: int|
            0 <= j < i && (#[trigger] stated_pairs(tree)[j]).0 == stated_pairs(tree)[i].0
                ==> stated_pairs(tree)[j].1 == stated_pairs(tree)[i].0,
    ensures
        stated_mapping(tree) matches Some(table) && table.contains_key(stated_pairs(tree)[i].0)
            && table[stated_pairs(tree)[i].0] == stated_pairs(tree)[i].1,
{
    let stated = stated_pairs(tree);
    lemma_kept(stated, stated[i].0);
    assert(is_first_for(stated, stated[i].0, i));
    lemma_no_pairs_map_nothing(kept_pairs(tree));
}

proof fn lemma_no_pairs_map_nothing(pairs: Seq<(u16, u16)>)
    ensures
        pairs.len() == 0 ==> mapping(pairs) == Map::<char, char>::empty(),
        pairs.len() > 0 ==> mapping(pairs).contains_key(pairs.last().0 as char),
{
}

/// A document's table holds nothing that the document does not state: each
/// mapping is a stated pair of two different characters that fit 16 bits, the
/// first pair to map that character to another one. A table is never empty.
pub proof fn law_stated_mapping(tree: ConfigTree)
    ensures
        stated_mapping(tree) matches Some(table) ==> table.dom() != Set::<char>::empty(),
        stated_mapping(tree) matches Some(table) ==> forall|c: char| #[trigger]
            table.contains_key(c) ==> exists|i: int|
                #![trigger stated_pairs(tree)[i]]
                0 <= i < stated_pairs(tree).len() && stated_pairs(tree)[i] == (c, table[c]) && c
                    != table[c] && c as int <= 0xFFFF && table[c] as int <= 0xFFFF && forall|j: int|
                    0 <= j < i && (#[trigger] stated_pairs(tree)[j]).0 == c ==> stated_pairs(
                        tree,
                    )[j].1 == c,
{
    let stated = stated_pairs(tree);
    if let Some(table) = stated_mapping(tree) {
        lemma_no_pairs_map_nothing(kept_pairs(tree));
        assert(table.dom().contains(kept_pairs(tree).last().0 as char));
        assert forall|c: char| #[trigger] table.contains_key(c) implies exists|i: int|
            #![trigger stated_pairs(tree)[i]]
            0 <= i < stated_pairs(tree).len() && stated_pairs(tree)[i] == (c, table[c]) && c
                != table[c] && c as int <= 0xFFFF && table[c] as int <= 0xFFFF && forall|j: int|
                0 <= j < i && (#[trigger] stated_pairs(tree)[j]).0 == c ==> stated_pairs(tree)[j].1
                    == c by {
            lemma_kept(stated, c);
            lemma_first_exists(stated, c);
            let i = choose|i: int| #[trigger] is_first_for(stated, c, i);
            assert(stated[i] == (c, table[c]));
        }
    }
}

/// A list states what its items state, one after the other: nothing of a longer
/// list is lost.
pub proof fn law_lists_state_all_their_items(items: Seq<ConfigTree>, more: Seq<ConfigTree>)
    ensures
        stated_pairs(ConfigTree::Array(Seq::empty())) == Seq::<(char, char)>::empty(),
        stated_pairs(ConfigTree::Array(items + more)) == stated_pairs(ConfigTree::Array(items))
            + stated_pairs(ConfigTree::Array(more)),
{
    reveal_with_fuel(item_pairs, 2);
    assert(stated_pairs(ConfigTree::Array(Seq::empty())) =~= Seq::<(char, char)>::empty());
    lemma_items_in_two_parts(items, more, more.len());
}

proof fn lemma_items_in_two_parts(items: Seq<ConfigTree>, more: Seq<ConfigTree>, n: nat)
    requires
        n <= more.len(),
    ensures
        item_pairs(items + more, (items.len() + n) as nat) == item_pairs(items, items.len())
            + item_pairs(more, n),
    decreases n,
{
    if n == 0 {
        lemma_items_of_prefix(items, more, items.len());
        assert(item_pairs(items, items.len()) + item_pairs(more, 0) =~= item_pairs(
            items,
            items.len(),
        ));
    } else {
        lemma_items_in_two_parts(items, more, (n - 1) as nat);
        assert((items + more)[items.len() + n - 1] == more[n - 1]);
        assert(item_pairs(items + more, (items.len() + n) as nat) =~= item_pairs(
            items,
            items.len(),
        ) + item_pairs(more, n));
    }
}

proof fn lemma_items_of_prefix(items: Seq<ConfigTree>, more: Seq<ConfigTree>, n: nat)
    requires
        n <= items.len(),
    ensures
        item_pairs(items + more, n) == item_pairs(items, n),
    decreases n,
{
    if n > 0 {
        lemma_items_of_prefix(items, more, (n - 1) as nat);
        assert((items + more)[n - 1] == items[n - 1]);
    }
}

proof fn lemma_fields_as_items(fields: Seq<(Seq<char>, ConfigTree)>, n: nat)
    requires
        n <= fields.len(),
    ensures
        field_pairs(fields, n) == item_pairs(
            fields.map_values(|f: (Seq<char>, ConfigTree)| f.1),
            n,
        ),
    decreases n,
{
    if n > 0 {
        lemma_fields_as_items(fields, (n - 1) as nat);
    }
}

/// The walk goes into every field of an object, whatever its name and whether or
/// not the object is a rule: what stands inside the fields is stated behind the
/// object's own pairs, as it would be in a list.
pub proof fn law_objects_state_all_their_fields(fields: Seq<(Seq<char>, ConfigTree)>)
    ensures
        ({
            let inside = stated_pairs(
                ConfigTree::Array(fields.map_values(|f: (Seq<char>, ConfigTree)| f.1)),
            );
            let whole = stated_pairs(ConfigTree::Object(fields));
            &&& inside.len() <= whole.len()
            &&& whole.skip(whole.len() - inside.len()) == inside
            &&& forall|source: Seq<char>, target: Seq<char>|
                may_be_rule(fields) && #[trigger] has_text(fields, "source_chars"@, source)
                    && #[trigger] has_text(fields, "target_chars"@, target) ==> whole == Seq::new(
                    if source.len() <= target.len() {
                        source.len()
                    } else {
                        target.len()
                    },
                    |i: int| (source[i], target[i]),
                ) + inside
        }),
{
    let items = fields.map_values(|f: (Seq<char>, ConfigTree)| f.1);
    let inside = stated_pairs(ConfigTree::Array(items));
    let whole = stated_pairs(ConfigTree::Object(fields));
    lemma_fields_as_items(fields, fields.len());
    assert(whole == rule_pairs(fields) + inside);
    assert(whole.skip(whole.len() - inside.len()) =~= inside);
    assert forall|source: Seq<char>, target: Seq<char>|
        may_be_rule(fields) && #[trigger] has_text(fields, "source_chars"@, source)
            && #[trigger] has_text(fields, "target_chars"@, target) implies whole == Seq::new(
        if source.len() <= target.len() {
            source.len()
        } else {
            target.len()
        },
        |i: int| (source[i], target[i]),
    ) + inside by {
        lemma_rule_pairs(fields, source, target);
        law_every_position_states_its_pair(source, target);
        assert(rule_pairs(fields) =~= Seq::new(
            if source.len() <= target.len() {
                source.len()
            } else {
                target.len()
            },
            |i: int| (source[i], target[i]),
        ));
    }
}

/// An object of another type, or one that has no text under one of the two
/// names, states nothing of its own.
pub proof fn law_other_objects_state_nothing_of_their_own(
    fields: Seq<(Seq<char>, ConfigTree)>,
    kind: Seq<char>,
)
    requires
        has_text(fields, "type"@, kind) && kind != "replace_chars"@ || (forall|i: int|
            0 <= i < fields.len() && (#[trigger] fields[i]).0 == "source_chars"@ ==> fields[i].1
                !is Text) || (forall|i: int|
            0 <= i < fields.len() && (#[trigger] fields[i]).0 == "target_chars"@ ==> fields[i].1
                !is Text),
    ensures
        stated_pairs(ConfigTree::Object(fields)) == stated_pairs(
            ConfigTree::Array(fields.map_values(|f: (Seq<char>, ConfigTree)| f.1)),
        ),
{
    law_first_field_of_a_name_is_found(fields, "source_chars"@);
    law_first_field_of_a_name_is_found(fields, "target_chars"@);
    if has_text(fields, "type"@, kind) {
        lemma_text_found(fields, "type"@, kind);
    }
    lemma_fields_as_items(fields, fields.len());
    assert(rule_pairs(fields) =~= Seq::empty());
    assert(stated_pairs(ConfigTree::Object(fields)) =~= field_pairs(fields, fields.len()));
}

/// A text, a number, a boolean or null states nothing.
pub proof fn law_plain_values_state_nothing(text: Seq<char>)
    ensures
        stated_pairs(ConfigTree::Text(text)) == Seq::<(char, char)>::empty(),
        stated_pairs(ConfigTree::Other) == Seq::<(char, char)>::empty(),
{
}

} // verus!
