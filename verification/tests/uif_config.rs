use codepage::chars::CharSet;
use codepage::select::select;
use codepage::uif::{
    collect_replace_chars, config_table, remap_from_uif_config, uif_config_table, ConfigValue,
};

fn char_set(text: &str) -> CharSet {
    let mut set = CharSet::new();
    set.extend(text);
    set
}

fn text(value: &str) -> ConfigValue {
    ConfigValue::Text(String::from(value))
}

fn rule(source: &str, target: &str) -> ConfigValue {
    ConfigValue::Object(vec![
        (String::from("source_chars"), text(source)),
        (String::from("target_chars"), text(target)),
    ])
}

/// A UIF patch states its pairs, so they are read as given rather than
/// recovered heuristically, including tables too short to pass the binary-scan
/// gates.
#[test]
fn reads_replace_chars_rules() {
    let config = br#"{
                "text_processor": {
                    "rules": [
                        { "type": "replace_chars",
                          "source_chars": "\u9075\u8aac\u660e",
                          "target_chars": "\u8fdd\u8bf4\u5982" }
                    ]
                }
            }"#;
    let table = remap_from_uif_config(config).expect("table");
    assert_eq!(table.pairs().len(), 3);
    assert_eq!(table.remap("遵説明"), "违说如");

    // Explicit pairs still have to line up with the release's text.
    let text = char_set("遵説明");
    assert!(select(&[table], &text).is_some());
}

#[test]
fn ignores_configs_that_do_not_carry_a_mapping() {
    assert!(remap_from_uif_config(b"{}").is_none());
    assert!(remap_from_uif_config(b"not json").is_none());
    assert!(remap_from_uif_config(
        br#"{ "text_processor": { "rules": [
                    { "type": "tunnel_decoder", "source_chars": "\u9075", "target_chars": "\u8fdd" }
                ] } }"#
    )
    .is_none());
    // Pairs that match themselves carry no mapping.
    assert!(remap_from_uif_config(
        br#"{ "rules": [ {
                    "type": "replace_chars", "source_chars": "\u9075", "target_chars": "\u9075"
                } ] }"#
    )
    .is_none());
}

/// `source_chars` and `target_chars` pair up by position, and a repeated
/// substitute keeps its first mapping.
#[test]
fn pairs_replace_chars_position_by_position() {
    let table = remap_from_uif_config(
        br#"{ "rules": [
                    { "type": "replace_chars", "source_chars": "\u9075\u8aac",
                      "target_chars": "\u8fdd" },
                    { "type": "replace_chars", "source_chars": "\u9075",
                      "target_chars": "\u9519" }
                ] }"#,
    )
    .expect("table");
    // The surplus substitute has no target, and the second rule cannot override
    // the first.
    assert_eq!(table.pairs().len(), 1);
    assert_eq!(table.remap("遵説"), "违説");
}

#[test]
fn missing_or_wordless_type_is_a_rule() {
    let untyped = br#"{ "source_chars": "a", "target_chars": "b" }"#;
    assert_eq!(remap_from_uif_config(untyped).expect("table").remap("aa"), "bb");
    let numbered = br#"{ "type": 3, "source_chars": "a", "target_chars": "b" }"#;
    assert!(remap_from_uif_config(numbered).is_some());
    let half = br#"{ "type": "replace_chars", "source_chars": "a" }"#;
    assert!(remap_from_uif_config(half).is_none());
    let wordless = br#"{ "source_chars": "a", "target_chars": ["b"] }"#;
    assert!(remap_from_uif_config(wordless).is_none());
}

#[test]
fn unreadable_config_states_nothing() {
    assert!(uif_config_table(None).is_none());
    assert!(uif_config_table(Some(b"[")).is_none());
    let config = br#"[null, true, 1.5, "x", [{ "source_chars": "a", "target_chars": "b" }]]"#;
    assert!(uif_config_table(Some(config)).is_some());
}

/// An object's own rule comes before the rules inside it, and fields are walked
/// in the order of their names.
#[test]
fn rules_are_walked_from_the_outside_in() {
    let table = remap_from_uif_config(
        br#"{ "b": { "source_chars": "xy", "target_chars": "12" },
              "a": { "source_chars": "x", "target_chars": "3" },
              "source_chars": "z", "target_chars": "4",
              "inner": { "source_chars": "z", "target_chars": "5" } }"#,
    )
    .expect("table");
    assert_eq!(table.remap("xyz"), "324");
}

#[test]
fn table_of_a_given_document() {
    let nested = ConfigValue::Array(vec![ConfigValue::Other, rule("ab", "cd"), text("ab")]);
    assert_eq!(config_table(&nested).expect("table").remap("abc"), "cdc");
    assert!(config_table(&ConfigValue::Other).is_none());
    assert!(config_table(&rule("abc", "")).is_none());
}

/// A substitute whose first mapping does not fit 16 bits is settled without one.
#[test]
fn characters_beyond_sixteen_bits_are_not_mapped() {
    let mut pairs = Vec::new();
    let mut seen = CharSet::new();
    collect_replace_chars(&rule("a\u{1F600}b", "\u{1F601}xc"), &mut pairs, &mut seen);
    assert_eq!(pairs, vec![('b' as u16, 'c' as u16)]);
    collect_replace_chars(&rule("ab", "yz"), &mut pairs, &mut seen);
    assert_eq!(pairs, vec![('b' as u16, 'c' as u16)]);
    assert!(seen.contains('a'));
    assert!(seen.contains('\u{1F600}'));
    assert!(!seen.contains('c'));
}

#[test]
fn remapping_leaves_other_text_alone() {
    let table = config_table(&rule("xa", "yb")).expect("table");
    assert_eq!(*table.pairs(), vec![(0x61, 0x62), (0x78, 0x79)]);
    assert_eq!(table.remap(""), "");
    assert_eq!(table.remap("plain"), "plbin");
    assert_eq!(table.remap("none"), "none");
    assert_eq!(table.remap("x\u{1F600}a"), "y\u{1F600}b");
    // Each character is rewritten once, also where its target is a substitute.
    let chained = config_table(&rule("ab", "bc")).expect("table");
    assert_eq!(chained.remap("ab"), "bc");
    assert_eq!(table.clone().lookup('x'), Some('y'));
    assert_eq!(table.lookup('y'), None);
}

#[test]
fn remapping_goes_piece_by_piece() {
    let table = config_table(&rule("ab", "cd")).expect("table");
    let pieces = [table.remap("xa"), table.remap("by")];
    assert_eq!(table.remap("xaby"), pieces.concat());
    // No target is a substitute here, so once is enough.
    assert_eq!(table.remap(&table.remap("xaby")), table.remap("xaby"));
    // The mapping of a wrapped rule is that of the rule.
    let wrapped = ConfigValue::Object(vec![(String::from("any"), rule("ab", "cd"))]);
    let wrapped = config_table(&ConfigValue::Array(vec![wrapped])).expect("table");
    assert_eq!(wrapped.pairs(), table.pairs());
}
