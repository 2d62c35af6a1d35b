//! Block names: wildcard matching and the alias table that maps the names of
//! a block family onto one canonical name.

use vstd::prelude::*;

verus! {

/// Whether `text` as a whole matches `pattern`, where `?` stands for exactly
/// one character and `*` for any run of characters, the empty one included.
/// No character escapes another, and case matters.
pub open spec fn wildcard_matches(pattern: Seq<char>, text: Seq<char>) -> bool
    decreases pattern.len(), text.len(),
{
    if pattern.len() == 0 {
        text.len() == 0
    } else if pattern[0] == '*' {
        wildcard_matches(pattern.skip(1), text) || (text.len() > 0 && wildcard_matches(
            pattern,
            text.skip(1),
        ))
    } else {
        text.len() > 0 && (pattern[0] == '?' || pattern[0] == text[0]) && wildcard_matches(
            pattern.skip(1),
            text.skip(1),
        )
    }
}

/// Whether `text` ends with `suffix`.
pub open spec fn ends_with(text: Seq<char>, suffix: Seq<char>) -> bool {
    suffix.len() <= text.len() && text.skip(text.len() - suffix.len()) == suffix
}

/// Whether `text` starts with `prefix`.
pub open spec fn starts_with(text: Seq<char>, prefix: Seq<char>) -> bool {
    prefix.len() <= text.len() && text.take(prefix.len() as int) == prefix
}

/// `text` with `suffix` removed from its end as often as it stands there.
/// An empty suffix removes nothing.
pub open spec fn without_suffix(text: Seq<char>, suffix: Seq<char>) -> Seq<char>
    decreases text.len(),
{
    if suffix.len() > 0 && ends_with(text, suffix) {
        without_suffix(text.take(text.len() - suffix.len()), suffix)
    } else {
        text
    }
}

/// `text` with every occurrence of `from` replaced by `to`: occurrences are
/// found from the left and do not overlap. An empty `from` replaces nothing.
pub open spec fn with_replaced(text: Seq<char>, from: Seq<char>, to: Seq<char>) -> Seq<char>
    decreases text.len(),
{
    if from.len() == 0 || text.len() < from.len() {
        text
    } else if starts_with(text, from) {
        to + with_replaced(text.skip(from.len() as int), from, to)
    } else {
        seq![text[0]] + with_replaced(text.skip(1), from, to)
    }
}

/// One entry of an alias table.
#[derive(Debug, PartialEq, Eq)]
pub enum NameRule {
    /// Remove the suffix from the end of the name, as often as it stands there.
    StripSuffix(String),
    /// Replace every occurrence of `from` by `to`.
    Replace { from: String, to: String },
}

/// What a `NameRule` holds, with its strings as sequences of characters.
pub enum RuleModel {
    StripSuffix(Seq<char>),
    Replace { from: Seq<char>, to: Seq<char> },
}

impl View for NameRule {
    type V = RuleModel;

    open spec fn view(&self) -> RuleModel {
        match self {
            NameRule::StripSuffix(suffix) => RuleModel::StripSuffix(suffix@),
            NameRule::Replace { from, to } => RuleModel::Replace { from: from@, to: to@ },
        }
    }
}

/// The models of a table of rules, in the same order.
pub open spec fn rule_models(rules: Seq<NameRule>) -> Seq<RuleModel> {
    rules.map_values(|r: NameRule| r@)
}

/// The name that one rule makes of `name`.
pub open spec fn rule_applied(rule: RuleModel, name: Seq<char>) -> Seq<char> {
    match rule {
        RuleModel::StripSuffix(suffix) => without_suffix(name, suffix),
        RuleModel::Replace { from, to } => with_replaced(name, from, to),
    }
}

/// The name that a table makes of `name`: its rules applied one after the
/// other, the first rule first.
pub open spec fn normalized_with(rules: Seq<RuleModel>, name: Seq<char>) -> Seq<char>
    decreases rules.len(),
{
    if rules.len() == 0 {
        name
    } else {
        rule_applied(rules.last(), normalized_with(rules.drop_last(), name))
    }
}

/// The built-in alias table: stone and ore family suffixes go, then the
/// deepslate and aetherslate variants fall onto the vanilla name.
pub open spec fn default_rule_models() -> Seq<RuleModel> {
    seq![
        RuleModel::StripSuffix("_stone"@),
        RuleModel::StripSuffix("_kivi"@),
        RuleModel::StripSuffix("_deepslate"@),
        RuleModel::Replace { from: "deepslate_"@, to: ""@ },
        RuleModel::Replace { from: "aethersteel:aetherslate_"@, to: "minecraft:"@ },
    ]
}

/// Calls `wildmatch::WildMatch::new(pattern).matches(text)`. The contract
/// claims that the crate decides what its documentation says: the whole of
/// `text` must match, `?` takes one character, `*` takes any run.
#[verifier::external_body]
pub(crate) fn wildmatch_matches(pattern: &str, text: &str) -> (hit: bool)
    ensures
        hit == wildcard_matches(pattern@, text@),
{
    wildmatch::WildMatch::new(pattern).matches(text)
}

/// Calls `str::trim_end_matches` with a string pattern. The contract claims
/// that every repetition of the suffix at the end is removed.
#[verifier::external_body]
pub(crate) fn str_trim_end_matches(text: &str, suffix: &str) -> (trimmed: String)
    requires
        suffix@.len() > 0,
    ensures
        trimmed@ == without_suffix(text@, suffix@),
{
    text.trim_end_matches(suffix).to_string()
}

/// Calls `str::replace` with a string pattern. The contract claims that the
/// matches are taken from the left without overlap and each becomes `to`.
#[verifier::external_body]
pub(crate) fn str_replace(text: &str, from: &str, to: &str) -> (replaced: String)
    requires
        from@.len() > 0,
    ensures
        replaced@ == with_replaced(text@, from@, to@),
{
    text.replace(from, to)
}

/// Whether `name` matches the wildcard `pattern`.
pub fn name_matches(pattern: &str, name: &str) -> (hit: bool)
    ensures
        hit == wildcard_matches(pattern@, name@),
{
    wildmatch_matches(pattern, name)
}

/// Applies one rule to a name.
pub fn apply_rule(rule: &NameRule, name: &str) -> (renamed: String)
    ensures
        renamed@ == rule_applied(rule@, name@),
{
    match rule {
        NameRule::StripSuffix(suffix) => {
            if suffix.as_str().is_empty() {
                name.to_owned()
            } else {
                str_trim_end_matches(name, suffix.as_str())
            }
        },
        NameRule::Replace { from, to } => {
            if from.as_str().is_empty() {
                name.to_owned()
            } else {
                str_replace(name, from.as_str(), to.as_str())
            }
        },
    }
}

/// Applies the rules of a table in order.
pub fn normalize_with(rules: &Vec<NameRule>, name: &str) -> (renamed: String)
    ensures
        renamed@ == normalized_with(rule_models(rules@), name@),
{
    let mut current: String = name.to_owned();
    let mut i: usize = 0;
    while i < rules.len()
        invariant
            i <= rules.len(),
            current@ == normalized_with(rule_models(rules@.take(i as int)), name@),
        decreases rules.len() - i,
    {
        let next = apply_rule(&rules[i], current.as_str());
        proof {
            let done = rule_models(rules@.take(i + 1));
            assert(done.drop_last() == rule_models(rules@.take(i as int)));
            assert(done.last() == rules@[i as int]@);
        }
        current = next;
        i += 1;
    }
    assert(rules@.take(rules.len() as int) == rules@);
    current
}

/// The built-in alias table.
pub fn default_rules() -> (rules: Vec<NameRule>)
    ensures
        rule_models(rules@) == default_rule_models(),
{
    let mut rules: Vec<NameRule> = Vec::new();
    rules.push(NameRule::StripSuffix(String::from_str("_stone")));
    rules.push(NameRule::StripSuffix(String::from_str("_kivi")));
    rules.push(NameRule::StripSuffix(String::from_str("_deepslate")));
    rules.push(NameRule::Replace { from: String::from_str("deepslate_"), to: String::from_str("") });
    rules.push(
        NameRule::Replace {
            from: String::from_str("aethersteel:aetherslate_"),
            to: String::from_str("minecraft:"),
        },
    );
    assert(rule_models(rules@) =~= default_rule_models());
    rules
}

/// The canonical name of a block under the built-in alias table.
pub fn normalize_name(name: &str) -> (renamed: String)
    ensures
        renamed@ == normalized_with(default_rule_models(), name@),
{
    let rules = default_rules();
    normalize_with(&rules, name)
}

} // verus!
