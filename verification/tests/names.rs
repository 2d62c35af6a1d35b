use mcworldgen::names::{
    apply_rule, default_rules, name_matches, normalize_name, normalize_with, NameRule,
};

#[test]
fn a_pattern_without_wildcards_matches_itself_only() {
    assert!(name_matches("minecraft:stone", "minecraft:stone"));
    assert!(!name_matches("minecraft:stone", "minecraft:stones"));
    assert!(!name_matches("minecraft:stone", "minecraft:ston"));
    assert!(!name_matches("minecraft:stone", "Minecraft:stone"));
    assert!(name_matches("", ""));
    assert!(!name_matches("", "a"));
}

#[test]
fn a_star_takes_any_run_of_characters() {
    assert!(name_matches("*", ""));
    assert!(name_matches("*", "anything"));
    assert!(name_matches("*ore", "minecraft:iron_ore"));
    assert!(name_matches("*ore*", "minecraft:iron_ore_stone"));
    assert!(name_matches("minecraft:*_ore", "minecraft:deepslate_gold_ore"));
    assert!(!name_matches("*ore", "minecraft:oreo"));
    assert!(name_matches("a*b*c", "aXXbYYc"));
    assert!(name_matches("a**c", "ac"));
    assert!(!name_matches("a*b*c", "aXXcYYb"));
    assert!(name_matches("*a", "aaa"));
    assert!(name_matches("*ab", "aab"));
}

#[test]
fn a_question_mark_takes_exactly_one_character() {
    assert!(name_matches("c?t", "cat"));
    assert!(name_matches("c?t", "cot"));
    assert!(!name_matches("c?t", "ct"));
    assert!(!name_matches("c?t", "coat"));
    assert!(!name_matches("????", "cat"));
    assert!(!name_matches("?", ""));
    assert!(name_matches("?*", "x"));
    assert!(name_matches("?", "é"));
}

#[test]
fn a_suffix_is_stripped_as_often_as_it_stands() {
    let rule = NameRule::StripSuffix("_stone".to_string());
    assert_eq!(apply_rule(&rule, "iron_ore_stone"), "iron_ore");
    assert_eq!(apply_rule(&rule, "iron_ore_stone_stone"), "iron_ore");
    assert_eq!(apply_rule(&rule, "_stone"), "");
    assert_eq!(apply_rule(&rule, "stone"), "stone");
    assert_eq!(apply_rule(&rule, "_stone_ore"), "_stone_ore");
    assert_eq!(apply_rule(&NameRule::StripSuffix(String::new()), "abc"), "abc");
}

#[test]
fn occurrences_are_replaced_from_the_left_without_overlap() {
    let rule = NameRule::Replace { from: "aa".to_string(), to: "b".to_string() };
    assert_eq!(apply_rule(&rule, "aaa"), "ba");
    assert_eq!(apply_rule(&rule, "aaaa"), "bb");
    assert_eq!(apply_rule(&rule, "xaay"), "xby");
    assert_eq!(apply_rule(&rule, "a"), "a");
    let drop = NameRule::Replace { from: "deepslate_".to_string(), to: String::new() };
    assert_eq!(apply_rule(&drop, "deepslate_deepslate_x"), "x");
    let nothing = NameRule::Replace { from: String::new(), to: "x".to_string() };
    assert_eq!(apply_rule(&nothing, "abc"), "abc");
}

#[test]
fn the_built_in_table_maps_a_family_onto_its_vanilla_name() {
    assert_eq!(normalize_name("minecraft:iron_ore"), "minecraft:iron_ore");
    assert_eq!(normalize_name("minecraft:iron_ore_stone"), "minecraft:iron_ore");
    assert_eq!(normalize_name("mod:iron_ore_kivi"), "mod:iron_ore");
    assert_eq!(normalize_name("mod:iron_ore_deepslate"), "mod:iron_ore");
    assert_eq!(normalize_name("minecraft:deepslate_iron_ore"), "minecraft:iron_ore");
    assert_eq!(normalize_name("aethersteel:aetherslate_gold_ore"), "minecraft:gold_ore");
}

#[test]
fn the_rules_of_a_table_apply_in_order() {
    assert_eq!(normalize_name("a_deepslate_kivi_stone"), "a");
    assert_eq!(normalize_name("a_stone_kivi"), "a_stone");
    assert_eq!(normalize_name("aethersteel:aetherslate_deepslate_x"), "minecraft:x");
    let rules = vec![
        NameRule::Replace { from: "b".to_string(), to: "a".to_string() },
        NameRule::StripSuffix("a".to_string()),
    ];
    assert_eq!(normalize_with(&rules, "xbab"), "x");
    assert_eq!(normalize_with(&Vec::new(), "xbab"), "xbab");
}

#[test]
fn the_built_in_table_has_five_rules() {
    assert_eq!(
        default_rules(),
        vec![
            NameRule::StripSuffix("_stone".to_string()),
            NameRule::StripSuffix("_kivi".to_string()),
            NameRule::StripSuffix("_deepslate".to_string()),
            NameRule::Replace { from: "deepslate_".to_string(), to: String::new() },
            NameRule::Replace {
                from: "aethersteel:aetherslate_".to_string(),
                to: "minecraft:".to_string()
            },
        ]
    );
}
