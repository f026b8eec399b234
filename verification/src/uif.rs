//! Mappings that a `uif_config.json` states.
//!
//! A `replace_chars` rule pairs `source_chars` with `target_chars` position by
//! position, the substitute first and the real character second.
use crate::chars::{in_bmp, is_scalar, lemma_char_code, CharSet};
use crate::codepage::{distinct_keys, mapping, scalar_pairs, Codepage};
use crate::select::mapping_of;
use vstd::prelude::*;

verus! {

broadcast use vstd::set::group_set_axioms;

/// A JSON document as far as a mapping can stand in it.
#[derive(Debug)]
pub enum ConfigValue {
    /// An object's fields by name, in the order in which they are walked.
    Object(Vec<(String, ConfigValue)>),
    Array(Vec<ConfigValue>),
    Text(String),
    /// A number, a boolean or null.
    Other,
}

/// What a `ConfigValue` holds.
pub enum ConfigTree {
    Object(Seq<(Seq<char>, ConfigTree)>),
    Array(Seq<ConfigTree>),
    Text(Seq<char>),
    Other,
}

impl ConfigValue {
    /// The tree of this value.
    pub open spec fn tree(self) -> ConfigTree
        decreases self,
    {
        match self {
            ConfigValue::Object(fields) => ConfigTree::Object(
                Seq::new(
                    fields@.len(),
                    |i: int|
                        if 0 <= i < fields@.len() {
                            (fields@[i].0@, fields@[i].1.tree())
                        } else {
                            arbitrary()
                        },
                ),
            ),
            ConfigValue::Array(items) => ConfigTree::Array(
                Seq::new(
                    items@.len(),
                    |i: int|
                        if 0 <= i < items@.len() {
                            items@[i].tree()
                        } else {
                            arbitrary()
                        },
                ),
            ),
            ConfigValue::Text(text) => ConfigTree::Text(text@),
            ConfigValue::Other => ConfigTree::Other,
        }
    }
}

/// `serde_json::Value`, a parsed JSON document, carried as it is.
#[verifier::external_type_specification]
#[verifier::external_body]
pub struct ExJsonValue(serde_json::Value);

/// `serde_json::Error`, the reason why a parse failed, carried as it is.
#[verifier::external_type_specification]
#[verifier::external_body]
pub struct ExJsonError(serde_json::Error);

/// The document that `serde_json` reads from a byte string, `None` where it
/// finds no valid JSON.
pub uninterp spec fn json_document(bytes: Seq<u8>) -> Option<ConfigTree>;

/// What a `serde_json` value holds.
pub uninterp spec fn json_tree(value: serde_json::Value) -> ConfigTree;

/// A `serde_json` value taken apart by one level.
enum JsonNode {
    Object(Vec<(String, serde_json::Value)>),
    Array(Vec<serde_json::Value>),
    Text(String),
    Other,
}

/// `serde_json::from_slice` into a `serde_json::Value`: the document that the
/// bytes hold, an error where they hold none. Both depend on the bytes alone.
/// The grammar and the limit on nesting are left unsaid.
#[verifier::external_body]
fn parse_json(bytes: &[u8]) -> (parsed: Result<serde_json::Value, serde_json::Error>)
    ensures
        json_document(bytes@) == (match parsed {
            Ok(value) => Some(json_tree(value)),
            Err(_) => None,
        }),
{
    serde_json::from_slice(bytes)
}

/// The variants of `serde_json::Value`, and `serde_json::Map::into_iter` for the
/// entries of an object: an object gives its entries in the order in which the
/// map walks them, no name twice; an array its items in order; a string its
/// text. The name `json_tree` stands for these put together at every level.
#[verifier::external_body]
fn open_json(value: serde_json::Value) -> (node: JsonNode)
    ensures
        match node {
            JsonNode::Object(fields) => json_tree(value) matches ConfigTree::Object(entries)
                && entries.len() == fields@.len() && (forall|i: int|
                0 <= i < entries.len() ==> #[trigger] entries[i] == (
                    fields@[i].0@,
                    json_tree(fields@[i].1),
                )) && (forall|i: int, j: int|
                #![trigger entries[i], entries[j]]
                0 <= i < j < entries.len() ==> entries[i].0 != entries[j].0),
            JsonNode::Array(items) => json_tree(value) matches ConfigTree::Array(trees)
                && trees.len() == items@.len() && (forall|i: int|
                0 <= i < trees.len() ==> #[trigger] trees[i] == json_tree(items@[i])),
            JsonNode::Text(text) => json_tree(value) == ConfigTree::Text(text@),
            JsonNode::Other => json_tree(value) == ConfigTree::Other,
        },
{
    match value {
        serde_json::Value::Object(fields) => JsonNode::Object(fields.into_iter().collect()),
        serde_json::Value::Array(items) => JsonNode::Array(items),
        serde_json::Value::String(text) => JsonNode::Text(text),
        serde_json::Value::Number(_) => JsonNode::Other,
        serde_json::Value::Bool(_) => JsonNode::Other,
        serde_json::Value::Null => JsonNode::Other,
    }
}

/// Copies a parsed document into a `ConfigValue`.
fn config_value(value: serde_json::Value) -> (config: ConfigValue)
    ensures
        config.tree() == json_tree(value),
    decreases json_tree(value),
{
    let ghost tree = json_tree(value);
    match open_json(value) {
        JsonNode::Object(fields) => {
            let ghost entries = tree->Object_0;
            let mut copied: Vec<(String, ConfigValue)> = Vec::new();
            for field in given: fields
                invariant
                    given.seq() == fields@,
                    tree == ConfigTree::Object(entries),
                    tree == json_tree(value),
                    entries.len() == fields@.len(),
                    forall|i: int|
                        0 <= i < entries.len() ==> #[trigger] entries[i] == (
                            fields@[i].0@,
                            json_tree(fields@[i].1),
                        ),
                    copied@.len() == given.index(),
                    forall|i: int|
                        0 <= i < copied@.len() ==> (#[trigger] copied@[i]).0@ == entries[i].0
                            && copied@[i].1.tree() == entries[i].1,
            {
                let (name, inner) = field;
                let ghost i = given.index() as int;
                assert(entries[i].1 == json_tree(inner));
                assert(decreases_to!(tree => tree->Object_0[i].1));
                copied.push((name, config_value(inner)));
            }
            let config = ConfigValue::Object(copied);
            assert(config.tree()->Object_0 =~= entries);
            config
        },
        JsonNode::Array(items) => {
            let ghost trees = tree->Array_0;
            let mut copied: Vec<ConfigValue> = Vec::new();
            for item in given: items
                invariant
                    given.seq() == items@,
                    tree == ConfigTree::Array(trees),
                    tree == json_tree(value),
                    trees.len() == items@.len(),
                    forall|i: int| 0 <= i < trees.len() ==> #[trigger] trees[i] == json_tree(items@[i]),
                    copied@.len() == given.index(),
                    forall|i: int|
                        0 <= i < copied@.len() ==> (#[trigger] copied@[i]).tree() == trees[i],
            {
                let ghost i = given.index() as int;
                assert(trees[i] == json_tree(item));
                assert(decreases_to!(tree => tree->Array_0[i]));
                copied.push(config_value(item));
            }
            let config = ConfigValue::Array(copied);
            assert(config.tree()->Array_0 =~= trees);
            config
        },
        JsonNode::Text(text) => ConfigValue::Text(text),
        JsonNode::Other => ConfigValue::Other,
    }
}

/// The field of that name, the first one where there are several.
pub open spec fn field(fields: Seq<(Seq<char>, ConfigTree)>, name: Seq<char>) -> Option<ConfigTree>
    decreases fields.len(),
{
    if fields.len() == 0 {
        None
    } else if fields[0].0 == name {
        Some(fields[0].1)
    } else {
        field(fields.drop_first(), name)
    }
}

/// The text of the field of that name, `None` where it is missing or no text.
pub open spec fn text_field(fields: Seq<(Seq<char>, ConfigTree)>, name: Seq<char>) -> Option<
    Seq<char>,
> {
    match field(fields, name) {
        Some(ConfigTree::Text(text)) => Some(text),
        _ => None,
    }
}

/// The characters of two strings paired up by position, as far as both reach.
pub open spec fn zipped(source: Seq<char>, target: Seq<char>) -> Seq<(char, char)> {
    Seq::new(
        if source.len() <= target.len() {
            source.len()
        } else {
            target.len()
        },
        |i: int| (source[i], target[i]),
    )
}

/// The pairs that an object states as a rule: it has both strings, and its type
/// is `replace_chars` or is not given as a text.
pub open spec fn rule_pairs(fields: Seq<(Seq<char>, ConfigTree)>) -> Seq<(char, char)> {
    if text_field(fields, "type"@) matches Some(kind) && kind != "replace_chars"@ {
        Seq::empty()
    } else {
        match (text_field(fields, "source_chars"@), text_field(fields, "target_chars"@)) {
            (Some(source), Some(target)) => zipped(source, target),
            _ => Seq::empty(),
        }
    }
}

/// Every pair that a document states, in the order of the walk: an object's own
/// rule comes before those inside it.
pub open spec fn stated_pairs(tree: ConfigTree) -> Seq<(char, char)>
    decreases tree, 0nat,
{
    match tree {
        ConfigTree::Object(fields) => rule_pairs(fields) + field_pairs(fields, fields.len()),
        ConfigTree::Array(items) => item_pairs(items, items.len()),
        _ => Seq::empty(),
    }
}

/// The pairs stated inside the first `n` fields.
pub open spec fn field_pairs(fields: Seq<(Seq<char>, ConfigTree)>, n: nat) -> Seq<(char, char)>
    decreases fields, n,
{
    if n == 0 || n > fields.len() {
        Seq::empty()
    } else {
        field_pairs(fields, (n - 1) as nat) + stated_pairs(fields[n - 1].1)
    }
}

/// The pairs stated inside the first `n` items.
pub open spec fn item_pairs(items: Seq<ConfigTree>, n: nat) -> Seq<(char, char)>
    decreases items, n,
{
    if n == 0 || n > items.len() {
        Seq::empty()
    } else {
        item_pairs(items, (n - 1) as nat) + stated_pairs(items[n - 1])
    }
}

/// The pairs kept so far, and the substitutes already settled.
pub struct Kept {
    pub pairs: Seq<(u16, u16)>,
    pub seen: Set<char>,
}

/// Takes in one more stated pair. One that maps a character to itself carries no
/// mapping, one for a settled substitute comes too late, and one with a
/// character beyond 16 bits settles its substitute without a mapping.
pub open spec fn keep(kept: Kept, pair: (char, char)) -> Kept {
    if pair.0 == pair.1 || kept.seen.contains(pair.0) {
        kept
    } else {
        Kept {
            pairs: if in_bmp(pair.0) && in_bmp(pair.1) {
                kept.pairs.push((pair.0 as u16, pair.1 as u16))
            } else {
                kept.pairs
            },
            seen: kept.seen.insert(pair.0),
        }
    }
}

/// Takes in all of `stated` in order.
pub open spec fn keep_all(kept: Kept, stated: Seq<(char, char)>) -> Kept
    decreases stated.len(),
{
    if stated.len() == 0 {
        kept
    } else {
        keep(keep_all(kept, stated.drop_last()), stated.last())
    }
}

/// What a document's own pairs leave.
pub open spec fn kept_pairs(tree: ConfigTree) -> Seq<(u16, u16)> {
    keep_all(Kept { pairs: Seq::empty(), seen: Set::empty() }, stated_pairs(tree)).pairs
}

/// What a document's table maps, `None` where it carries no mapping.
pub open spec fn stated_mapping(tree: ConfigTree) -> Option<Map<char, char>> {
    if kept_pairs(tree).len() == 0 {
        None
    } else {
        Some(mapping(kept_pairs(tree)))
    }
}

proof fn lemma_keep_all_concat(kept: Kept, front: Seq<(char, char)>, back: Seq<(char, char)>)
    ensures
        keep_all(kept, front + back) == keep_all(keep_all(kept, front), back),
    decreases back.len(),
{
    if back.len() == 0 {
        assert(front + back =~= front);
    } else {
        assert((front + back).drop_last() =~= front + back.drop_last());
        lemma_keep_all_concat(kept, front, back.drop_last());
    }
}

/// The keys kept are distinct and settled, and all kept units are characters.
pub open spec fn is_consistent(kept: Kept) -> bool {
    &&& distinct_keys(kept.pairs)
    &&& scalar_pairs(kept.pairs)
    &&& forall|i: int|
        0 <= i < kept.pairs.len() ==> kept.seen.contains((#[trigger] kept.pairs[i]).0 as char)
}

proof fn lemma_keep_all_consistent(kept: Kept, stated: Seq<(char, char)>)
    requires
        is_consistent(kept),
    ensures
        is_consistent(keep_all(kept, stated)),
    decreases stated.len(),
{
    if stated.len() > 0 {
        lemma_keep_all_consistent(kept, stated.drop_last());
        let before = keep_all(kept, stated.drop_last());
        let pair = stated.last();
        let after = keep(before, pair);
        lemma_char_code(pair.0);
        lemma_char_code(pair.1);
        assert forall|i: int, j: int|
            #![trigger after.pairs[i], after.pairs[j]]
            0 <= i < j < after.pairs.len() implies after.pairs[i].0 != after.pairs[j].0 by {
            assert(before.pairs[i].0 == after.pairs[i].0);
            if j < before.pairs.len() {
                assert(before.pairs[j].0 == after.pairs[j].0);
            } else {
                assert(before.seen.contains(before.pairs[i].0 as char));
            }
        }
        assert forall|i: int| #![trigger after.pairs[i]] 0 <= i < after.pairs.len() implies is_scalar(
            after.pairs[i].0 as int,
        ) && is_scalar(after.pairs[i].1 as int) && after.seen.contains(
            after.pairs[i].0 as char,
        ) by {
            if i < before.pairs.len() {
                assert(before.pairs[i] == after.pairs[i]);
            }
        }
    }
}

/// The text of the field of that name.
fn find_text<'a>(fields: &'a Vec<(String, ConfigValue)>, name: &str) -> (text: Option<&'a String>)
    ensures
        match text {
            Some(found) => text_field(ConfigValue::Object(*fields).tree()->Object_0, name@) == Some(
                found@,
            ),
            None => text_field(ConfigValue::Object(*fields).tree()->Object_0, name@) is None,
        },
{
    let ghost entries = ConfigValue::Object(*fields).tree()->Object_0;
    let wanted = name.to_owned();
    let mut i: usize = 0;
    assert(entries.skip(0) =~= entries);
    while i < fields.len()
        invariant
            i <= fields@.len(),
            wanted@ == name@,
            entries == ConfigValue::Object(*fields).tree()->Object_0,
            field(entries, name@) == field(entries.skip(i as int), name@),
        decreases fields@.len() - i,
    {
        assert(entries[i as int] == (fields@[i as int].0@, fields@[i as int].1.tree()));
        assert(entries.skip(i as int)[0] == entries[i as int]);
        if fields[i].0 == wanted {
            return match &fields[i].1 {
                ConfigValue::Text(text) => Some(text),
                _ => None,
            };
        }
        assert(entries.skip(i as int).drop_first() =~= entries.skip(i + 1));
        i = i + 1;
    }
    None
}

/// Takes in the pairs of one rule.
fn collect_rule(source: &str, target: &str, pairs: &mut Vec<(u16, u16)>, seen: &mut CharSet)
    ensures
        (Kept { pairs: final(pairs)@, seen: final(seen)@ }) == keep_all(
            Kept { pairs: old(pairs)@, seen: old(seen)@ },
            zipped(source@, target@),
        ),
{
    let ghost before = Kept { pairs: pairs@, seen: seen@ };
    let ghost stated = zipped(source@, target@);
    let mut targets = target.chars();
    assert(target@.skip(0) =~= target@);
    assert(stated.take(0) =~= Seq::empty());
    for substitute in sources: source.chars()
        invariant
            sources.seq() == source@,
            stated == zipped(source@, target@),
            vstd::std_specs::iter::IteratorSpec::remaining(&targets) == target@.skip(
                if sources.index() <= target@.len() {
                    sources.index() as int
                } else {
                    target@.len() as int
                },
            ),
            (Kept { pairs: pairs@, seen: seen@ }) == keep_all(
                before,
                stated.take(
                    if sources.index() <= stated.len() {
                        sources.index() as int
                    } else {
                        stated.len() as int
                    },
                ),
            ),
    {
        let ghost i = sources.index() as int;
        if let Some(shown) = targets.next() {
            proof {
                assert(stated[i] == (substitute, shown));
                assert(stated.take(i + 1).drop_last() =~= stated.take(i));
                assert(target@.skip(i).drop_first() =~= target@.skip(i + 1));
                lemma_char_code(substitute);
                lemma_char_code(shown);
            }
            if substitute != shown && seen.insert(substitute) {
                let (key, value): (u32, u32) = (substitute as u32, shown as u32);
                if key <= 0xFFFF && value <= 0xFFFF {
                    pairs.push((key as u16, value as u16));
                }
            } else {
                assert(seen@ =~= keep_all(before, stated.take(i)).seen);
            }
        }
    }
    assert(stated.take(stated.len() as int) =~= stated);
}

/// Walks the config for `replace_chars` rules. The rule lives under
/// `text_processor.rules` in every config seen, but the walk does not depend on
/// where it sits: a rule that states both strings is a rule.
pub fn collect_replace_chars(
    value: &ConfigValue,
    pairs: &mut Vec<(u16, u16)>,
    seen: &mut CharSet,
)
    ensures
        (Kept { pairs: final(pairs)@, seen: final(seen)@ }) == keep_all(
            Kept { pairs: old(pairs)@, seen: old(seen)@ },
            stated_pairs(value.tree()),
        ),
    decreases value,
{
    let ghost before = Kept { pairs: pairs@, seen: seen@ };
    match value {
        ConfigValue::Object(fields) => {
            let ghost entries = value.tree()->Object_0;
            let is_rule = match find_text(fields, "type") {
                Some(kind) => *kind == "replace_chars".to_owned(),
                None => true,
            };
            if is_rule {
                if let (Some(source), Some(target)) = (
                    find_text(fields, "source_chars"),
                    find_text(fields, "target_chars"),
                ) {
                    collect_rule(source.as_str(), target.as_str(), pairs, seen);
                }
            }
            let ghost ruled = keep_all(before, rule_pairs(entries));
            assert(Kept { pairs: pairs@, seen: seen@ } == ruled);
            let mut i: usize = 0;
            while i < fields.len()
                invariant
                    i <= fields@.len(),
                    *value == ConfigValue::Object(*fields),
                    entries == value.tree()->Object_0,
                    (Kept { pairs: pairs@, seen: seen@ }) == keep_all(
                        ruled,
                        field_pairs(entries, i as nat),
                    ),
                decreases fields@.len() - i,
            {
                proof {
                    assert(decreases_to!(value => fields@[i as int].1));
                    lemma_keep_all_concat(
                        ruled,
                        field_pairs(entries, i as nat),
                        stated_pairs(entries[i as int].1),
                    );
                }
                collect_replace_chars(&fields[i].1, pairs, seen);
                i = i + 1;
            }
            proof {
                lemma_keep_all_concat(
                    before,
                    rule_pairs(entries),
                    field_pairs(entries, entries.len()),
                );
            }
        },
        ConfigValue::Array(items) => {
            let ghost trees = value.tree()->Array_0;
            let mut i: usize = 0;
            while i < items.len()
                invariant
                    i <= items@.len(),
                    *value == ConfigValue::Array(*items),
                    trees == value.tree()->Array_0,
                    (Kept { pairs: pairs@, seen: seen@ }) == keep_all(
                        before,
                        item_pairs(trees, i as nat),
                    ),
                decreases items@.len() - i,
            {
                proof {
                    assert(decreases_to!(value => items@[i as int]));
                    lemma_keep_all_concat(
                        before,
                        item_pairs(trees, i as nat),
                        stated_pairs(trees[i as int]),
                    );
                }
                collect_replace_chars(&items[i], pairs, seen);
                i = i + 1;
            }
        },
        _ => {},
    }
}

/// The table that a document states.
pub fn config_table(config: &ConfigValue) -> (table: Option<Codepage>)
    ensures
        mapping_of(table) == stated_mapping(config.tree()),
{
    let mut pairs: Vec<(u16, u16)> = Vec::new();
    let mut seen = CharSet::new();
    proof {
        lemma_keep_all_consistent(
            Kept { pairs: pairs@, seen: seen@ },
            stated_pairs(config.tree()),
        );
    }
    collect_replace_chars(config, &mut pairs, &mut seen);
    if pairs.is_empty() {
        return None;
    }
    Some(Codepage::from_pairs(pairs))
}

/// Reads the pairs out of a `uif_config.json`.
pub fn remap_from_uif_config(bytes: &[u8]) -> (table: Option<Codepage>)
    ensures
        mapping_of(table) == (match json_document(bytes@) {
            Some(tree) => stated_mapping(tree),
            None => None,
        }),
{
    match parse_json(bytes) {
        Ok(value) => config_table(&config_value(value)),
        Err(_) => None,
    }
}

/// The mapping of a `uif_config.json`, given its bytes; `None` in place of a file
/// that could not be read.
pub fn uif_config_table(contents: Option<&[u8]>) -> (table: Option<Codepage>)
    ensures
        mapping_of(table) == (match contents {
            Some(bytes) => match json_document(bytes@) {
                Some(tree) => stated_mapping(tree),
                None => None,
            },
            None => None,
        }),
{
    match contents {
        Some(bytes) => remap_from_uif_config(bytes),
        None => None,
    }
}

} // verus!
