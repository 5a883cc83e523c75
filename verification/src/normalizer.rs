//! Deterministic task normalization: the resolver's first stage.
//!
//! [`TaskNormalizer`] turns the observable signals of one turn (the prompt,
//! the explicit command, the workspace snapshot, the attached skills and the
//! classification rules) into a [`NormalizedTask`]: the classified intent with
//! its provenance, the relevant skills, and the touched files. Normalization
//! never calls a model: the same inputs always produce the same result.

use vstd::prelude::*;
use crate::fuzzy::{match_keyword, spec_match_keyword, spec_tokenize, tokenize, KeywordHit};
use crate::globs::{paths_match, spec_paths_match};
use crate::order::{is_key_order, key_before, lemma_first_in_order_is_least, order_by_key};
use crate::resolver::{TaskInput, Workspace};
use crate::signals::{
    context_kinds, relevant_skills, spec_context_kinds, spec_relevant_skills, spec_touched_files,
    touched_files,
};
use crate::text::{decimal, decimal_string};
use crate::types::{
    intent_name, Classification, ClassificationConfig, ClassificationRule, Confidence,
    IntentSource, RoutingRule, Skill, TaskIntent,
};

verus! {

/// The normalized form of one turn's request.
#[derive(Debug)]
pub struct NormalizedTask {
    /// The deterministic classification outcome: intent plus provenance.
    pub classification: Classification,
    /// Client-supplied skills judged relevant to this turn.
    pub skills: Vec<Skill>,
    /// File paths relevant to the task, matched against routing-rule globs.
    pub touched_files: Vec<String>,
}

/// Whether the task has a relevant skill named `name`.
pub open spec fn has_skill_named(skills: Seq<Skill>, name: Seq<char>) -> bool {
    exists|i: int| 0 <= i < skills.len() && (#[trigger] skills[i]).name@ == name
}

/// Whether every present condition of `rule` holds for a task with the given
/// intent, relevant skills and touched files.
pub open spec fn spec_task_matches(
    intent: TaskIntent,
    skills: Seq<Skill>,
    touched: Seq<Seq<char>>,
    rule: RoutingRule,
) -> bool {
    &&& match rule.intent {
        Some(wanted) => intent == wanted,
        None => true,
    }
    &&& match rule.skill {
        Some(name) => has_skill_named(skills, name@),
        None => true,
    }
    &&& (rule.paths.len() == 0 || spec_paths_match(rule.paths.deep_view(), touched))
}

/// Whether `skills` holds a skill named `name`.
fn has_skill(skills: &Vec<Skill>, name: &String) -> (r: bool)
    ensures
        r == has_skill_named(skills@, name@),
{
    let mut i: usize = 0;
    while i < skills.len()
        invariant
            i <= skills.len(),
            forall|j: int| 0 <= j < i ==> (#[trigger] skills@[j]).name@ != name@,
        decreases skills.len() - i,
    {
        if skills[i].name == *name {
            return true;
        }
        i = i + 1;
    }
    false
}

impl NormalizedTask {
    /// The classified task intent.
    pub fn intent(&self) -> (intent: TaskIntent)
        ensures
            intent == self.classification.intent,
    {
        self.classification.intent
    }

    /// Returns `true` when every present condition of `rule` holds for this
    /// task.
    ///
    /// Conditions across fields are AND-combined; the path-glob list is
    /// OR-combined; absent conditions are ignored, so a rule with no
    /// conditions matches everything. Invalid path globs match nothing.
    pub fn matches(&self, rule: &RoutingRule) -> (r: bool)
        ensures
            r == spec_task_matches(self.classification.intent, self.skills@, self.touched_files.deep_view(), *rule),
    {
        match rule.intent {
            Some(intent) => {
                if self.intent() != intent {
                    return false;
                }
            },
            None => {},
        }
        match &rule.skill {
            Some(skill) => {
                if !has_skill(&self.skills, skill) {
                    return false;
                }
            },
            None => {},
        }
        if rule.paths.len() > 0 && !paths_match(&rule.paths, &self.touched_files) {
            return false;
        }
        true
    }
}

/// The priorities of the rules, as sort keys.
pub open spec fn rule_keys(rules: Seq<ClassificationRule>) -> Seq<u64> {
    Seq::new(rules.len(), |i: int| rules[i].priority as u64)
}

/// The index of the first required context kind that is available.
pub open spec fn first_context_index(required: Seq<Seq<char>>, available: Seq<Seq<char>>, i: int) -> bool {
    &&& 0 <= i < required.len()
    &&& available.contains(required[i])
    &&& forall|j: int| 0 <= j < i ==> !available.contains(#[trigger] required[j])
}

/// Whether some required context kind is available.
pub open spec fn some_context_available(required: Seq<Seq<char>>, available: Seq<Seq<char>>) -> bool {
    exists|i: int| 0 <= i < required.len() && available.contains(#[trigger] required[i])
}

/// The first available required context kind, if any.
pub open spec fn spec_context_hit(required: Seq<Seq<char>>, available: Seq<Seq<char>>) -> Option<Seq<char>> {
    if some_context_available(required, available) {
        Some(required[choose|i: int| first_context_index(required, available, i)])
    } else {
        None
    }
}

/// Whether a classification rule matches: each present condition holds (some
/// keyword matches a prompt token, some required context kind is available).
pub open spec fn spec_rule_applies(rule: ClassificationRule, tokens: Seq<Seq<char>>, contexts: Seq<Seq<char>>) -> bool {
    &&& (rule.keywords.len() == 0 || spec_match_keyword(rule.keywords.deep_view(), tokens) is Some)
    &&& (rule.requires_any_context.len() == 0 || some_context_available(rule.requires_any_context.deep_view(), contexts))
}

/// The confidence of a matched rule: both condition kinds give `High`, unless
/// the keyword matched only through a typo, which caps it at `Medium`; one
/// kind gives `Medium`; a catch-all gives `Low`.
pub open spec fn spec_confidence(keyword_required: bool, context_required: bool, fuzzy: bool) -> Confidence {
    if keyword_required && context_required {
        if fuzzy { Confidence::Medium } else { Confidence::High }
    } else if keyword_required || context_required {
        Confidence::Medium
    } else {
        Confidence::Low
    }
}

/// The human-readable reason rule `index` matched.
pub open spec fn spec_match_reason(index: nat, keyword: Option<Seq<char>>, context: Option<Seq<char>>) -> Seq<char> {
    match (keyword, context) {
        (Some(k), Some(c)) => "keyword '"@ + k + "' and context '"@ + c + "' matched rule "@ + decimal(index),
        (Some(k), None) => "keyword '"@ + k + "' matched rule "@ + decimal(index),
        (None, Some(c)) => "context '"@ + c + "' matched rule "@ + decimal(index),
        (None, None) => "catch-all rule "@ + decimal(index) + " matched"@,
    }
}

/// The keyword a rule's keyword condition matched, if the rule has one.
pub open spec fn rule_keyword(rule: ClassificationRule, tokens: Seq<Seq<char>>) -> Option<Seq<char>> {
    if rule.keywords.len() > 0 {
        match spec_match_keyword(rule.keywords.deep_view(), tokens) {
            Some(hit) => Some(hit.0),
            None => None,
        }
    } else {
        None
    }
}

/// Whether a rule's keyword condition matched only through a typo.
pub open spec fn rule_keyword_fuzzy(rule: ClassificationRule, tokens: Seq<Seq<char>>) -> bool {
    match spec_match_keyword(rule.keywords.deep_view(), tokens) {
        Some(hit) => rule.keywords.len() > 0 && hit.1,
        None => false,
    }
}

/// The context kind a rule's context condition matched, if the rule has one.
pub open spec fn rule_context(rule: ClassificationRule, contexts: Seq<Seq<char>>) -> Option<Seq<char>> {
    if rule.requires_any_context.len() > 0 {
        spec_context_hit(rule.requires_any_context.deep_view(), contexts)
    } else {
        None
    }
}

/// Whether `c` is the classification a matched rule yields.
pub open spec fn is_rule_classification(c: Classification, rule: ClassificationRule, index: nat, tokens: Seq<Seq<char>>, contexts: Seq<Seq<char>>) -> bool {
    &&& c.intent == rule.intent
    &&& c.source == IntentSource::Inferred
    &&& c.matched_rule == Some(index as usize)
    &&& c.confidence == Some(spec_confidence(rule.keywords.len() > 0, rule.requires_any_context.len() > 0, rule_keyword_fuzzy(rule, tokens)))
    &&& c.reason@ == spec_match_reason(index, rule_keyword(rule, tokens), rule_context(rule, contexts))
}

/// Whether rule `k` is the first matching rule in ascending priority, ties
/// broken by configuration order.
pub open spec fn is_winning_rule(rules: Seq<ClassificationRule>, tokens: Seq<Seq<char>>, contexts: Seq<Seq<char>>, k: int) -> bool {
    &&& 0 <= k < rules.len()
    &&& spec_rule_applies(rules[k], tokens, contexts)
    &&& forall|j: int| 0 <= j < rules.len() && j != k && #[trigger] spec_rule_applies(rules[j], tokens, contexts) ==> key_before(rule_keys(rules), k, j)
}

/// Whether `c` is the classification of a turn with the given prompt tokens,
/// command, available context kinds and configuration.
///
/// An explicit command wins outright. Otherwise the matching rule that comes
/// first in ascending priority (configuration order breaking ties) decides,
/// and with no matching rule the default intent applies with low confidence.
pub open spec fn is_classification(c: Classification, command: Option<TaskIntent>, tokens: Seq<Seq<char>>, contexts: Seq<Seq<char>>, config: ClassificationConfig) -> bool {
    match command {
        Some(intent) => {
            &&& c.intent == intent
            &&& c.source == IntentSource::Explicit
            &&& c.reason@ == "explicit command '"@ + intent_name(intent) + "'"@
            &&& c.matched_rule is None
            &&& c.confidence is None
        },
        None => match c.matched_rule {
            Some(k) => {
                &&& is_winning_rule(config.rules@, tokens, contexts, k as int)
                &&& is_rule_classification(c, config.rules@[k as int], k as nat, tokens, contexts)
            },
            None => {
                &&& forall|j: int| 0 <= j < config.rules.len() ==> !spec_rule_applies(#[trigger] config.rules@[j], tokens, contexts)
                &&& c.intent == config.default_intent
                &&& c.source == IntentSource::Inferred
                &&& c.confidence == Some(Confidence::Low)
                &&& c.reason@ == "no rule matched; default intent '"@ + intent_name(config.default_intent) + "'"@
            },
        },
    }
}

/// Deterministic, LLM-free classifier and signal extractor for one turn.
///
/// Stateless: it reads only the per-request inputs passed to
/// [`normalize`](Self::normalize).
#[derive(Debug, Default, Clone, Copy)]
pub struct TaskNormalizer;

impl TaskNormalizer {
    /// Normalizes one turn into a [`NormalizedTask`].
    ///
    /// `input` carries the prompt and an optional explicit command;
    /// `workspace` supplies the context kinds and touched files; `skills` are
    /// the attached skills; `config` holds the classification rules and
    /// default intent. The result is always defined: classification falls
    /// back to the default intent when no rule matches.
    pub fn normalize(
        &self,
        input: &TaskInput,
        workspace: &Workspace,
        skills: &Vec<Skill>,
        config: &ClassificationConfig,
    ) -> (task: NormalizedTask)
        ensures
            is_classification(task.classification, input.command, spec_tokenize(input.text@), spec_context_kinds(*workspace), *config),
            task.skills@ == spec_relevant_skills(skills@, spec_tokenize(input.text@)),
            task.touched_files.deep_view() == spec_touched_files(*workspace),
    {
        let tokens = tokenize(input.text.as_str());
        NormalizedTask {
            classification: self.classify(input, &tokens, workspace, config),
            skills: relevant_skills(skills, &tokens),
            touched_files: touched_files(workspace),
        }
    }

    /// Classifies the turn.
    ///
    /// An explicit command wins outright. Otherwise the rules are tried in
    /// ascending priority (configuration order breaking ties) and the first
    /// match wins, falling back to the default intent when none do.
    pub fn classify(
        &self,
        input: &TaskInput,
        tokens: &Vec<String>,
        workspace: &Workspace,
        config: &ClassificationConfig,
    ) -> (c: Classification)
        ensures
            is_classification(c, input.command, tokens.deep_view(), spec_context_kinds(*workspace), *config),
    {
        match input.command {
            Some(intent) => {
                let mut reason = String::from_str("explicit command '");
                reason.append(intent.name());
                reason.append("'");
                return Classification {
                    intent,
                    source: IntentSource::Explicit,
                    reason,
                    matched_rule: None,
                    confidence: None,
                };
            },
            None => {},
        }
        let contexts = context_kinds(workspace);
        let order = self.rules_by_priority(config);
        let ghost tk = tokens.deep_view();
        let ghost cx = contexts.deep_view();
        let ghost rules = config.rules@;
        let mut p: usize = 0;
        while p < order.len()
            invariant
                p <= order.len(),
                is_key_order(order@, rule_keys(rules)),
                rules == config.rules@,
                tk == tokens.deep_view(),
                cx == contexts.deep_view(),
                cx == spec_context_kinds(*workspace),
                input.command is None,
                forall|q: int| 0 <= q < p ==> !spec_rule_applies(rules[#[trigger] order@[q] as int], tk, cx),
            decreases order.len() - p,
        {
            let index = order[p];
            match self.match_rule(&config.rules[index], index, tokens, &contexts) {
                Some(classification) => {
                    proof {
                        let holds = |j: int| spec_rule_applies(rules[j], tk, cx);
                        assert forall|j: int| 0 <= j < rules.len() && j != index && #[trigger] spec_rule_applies(rules[j], tk, cx) implies key_before(rule_keys(rules), index as int, j) by {
                            assert forall|q: int| 0 <= q < p implies !holds(#[trigger] order@[q] as int) by {
                                assert(!spec_rule_applies(rules[order@[q] as int], tk, cx));
                            }
                            lemma_first_in_order_is_least(order@, rule_keys(rules), p as int, j, holds);
                        }
                    }
                    return classification;
                },
                None => {},
            }
            p = p + 1;
        }
        proof {
            assert forall|j: int| 0 <= j < rules.len() implies !spec_rule_applies(#[trigger] rules[j], tk, cx) by {
                assert(crate::order::lists(order@, j));
                let q = choose|q: int| 0 <= q < order@.len() && #[trigger] order@[q] == j;
                assert(!spec_rule_applies(rules[order@[q] as int], tk, cx));
            }
        }
        let mut reason = String::from_str("no rule matched; default intent '");
        reason.append(config.default_intent.name());
        reason.append("'");
        Classification {
            intent: config.default_intent,
            source: IntentSource::Inferred,
            reason,
            matched_rule: None,
            confidence: Some(Confidence::Low),
        }
    }

    /// Rule indices ordered by ascending priority, ties broken by
    /// configuration order so the reported `matched_rule` is the configured
    /// index.
    pub fn rules_by_priority(&self, config: &ClassificationConfig) -> (order: Vec<usize>)
        ensures
            is_key_order(order@, rule_keys(config.rules@)),
    {
        let mut keys: Vec<u64> = Vec::new();
        let mut i: usize = 0;
        while i < config.rules.len()
            invariant
                i <= config.rules.len(),
                keys@ =~= rule_keys(config.rules@).subrange(0, i as int),
            decreases config.rules.len() - i,
        {
            keys.push(config.rules[i].priority as u64);
            i = i + 1;
        }
        assert(keys@ =~= rule_keys(config.rules@));
        order_by_key(&keys)
    }

    /// Evaluates one rule, yielding its classification only when it matches.
    ///
    /// A rule matches when each present condition holds: any keyword matches
    /// a prompt token, and any required context kind is available.
    pub fn match_rule(
        &self,
        rule: &ClassificationRule,
        index: usize,
        tokens: &Vec<String>,
        contexts: &Vec<String>,
    ) -> (r: Option<Classification>)
        ensures
            match r {
                Some(c) => spec_rule_applies(*rule, tokens.deep_view(), contexts.deep_view())
                    && is_rule_classification(c, *rule, index as nat, tokens.deep_view(), contexts.deep_view()),
                None => !spec_rule_applies(*rule, tokens.deep_view(), contexts.deep_view()),
            },
    {
        let keyword_required = rule.keywords.len() > 0;
        let context_required = rule.requires_any_context.len() > 0;
        let keyword_hit = if keyword_required {
            match match_keyword(&rule.keywords, tokens) {
                Some(hit) => Some(hit),
                None => return None,
            }
        } else {
            None
        };
        let context_hit = if context_required {
            match self.first_context_hit(&rule.requires_any_context, contexts) {
                Some(kind) => Some(kind),
                None => return None,
            }
        } else {
            None
        };
        let fuzzy = match &keyword_hit {
            Some(hit) => hit.fuzzy,
            None => false,
        };
        let confidence = self.confidence_for(keyword_required, context_required, fuzzy);
        let reason = self.match_reason(index, &keyword_hit, context_hit);
        Some(Classification {
            intent: rule.intent,
            source: IntentSource::Inferred,
            reason,
            matched_rule: Some(index),
            confidence: Some(confidence),
        })
    }

    /// Finds the first required context kind that is available.
    pub fn first_context_hit<'a>(&self, required: &'a Vec<String>, available: &Vec<String>) -> (r: Option<&'a String>)
        ensures
            match r {
                Some(kind) => spec_context_hit(required.deep_view(), available.deep_view()) == Some(kind@),
                None => spec_context_hit(required.deep_view(), available.deep_view()) is None,
            },
    {
        let ghost req = required.deep_view();
        let ghost av = available.deep_view();
        let mut i: usize = 0;
        while i < required.len()
            invariant
                i <= required.len(),
                req == required.deep_view(),
                av == available.deep_view(),
                forall|j: int| 0 <= j < i ==> !av.contains(#[trigger] req[j]),
            decreases required.len() - i,
        {
            if crate::fuzzy::contains_token(available, &required[i]) {
                proof {
                    assert(first_context_index(req, av, i as int));
                    let k = choose|k: int| first_context_index(req, av, k);
                    if k < i {
                        assert(!av.contains(req[k]));
                    } else if i < k {
                        assert(!av.contains(req[i as int]));
                    }
                }
                return Some(&required[i]);
            }
            i = i + 1;
        }
        None
    }

    /// Derives the confidence of a matched rule.
    ///
    /// A rule matching both condition kinds is `High`, unless the keyword
    /// matched only through a typo, which caps it at `Medium`.
    pub fn confidence_for(&self, keyword_required: bool, context_required: bool, fuzzy: bool) -> (c: Confidence)
        ensures
            c == spec_confidence(keyword_required, context_required, fuzzy),
    {
        if keyword_required && context_required {
            if fuzzy { Confidence::Medium } else { Confidence::High }
        } else if keyword_required || context_required {
            Confidence::Medium
        } else {
            Confidence::Low
        }
    }

    /// Builds the human-readable match reason for rule `index`.
    pub fn match_reason(&self, index: usize, keyword_hit: &Option<KeywordHit>, context_hit: Option<&String>) -> (reason: String)
        ensures
            reason@ == spec_match_reason(
                index as nat,
                match keyword_hit {
                    Some(hit) => Some(hit.keyword@),
                    None => None,
                },
                match context_hit {
                    Some(c) => Some(c@),
                    None => None,
                },
            ),
    {
        let number = decimal_string(index);
        match keyword_hit {
            Some(hit) => {
                let mut reason = String::from_str("keyword '");
                reason.append(hit.keyword.as_str());
                match context_hit {
                    Some(context) => {
                        reason.append("' and context '");
                        reason.append(context.as_str());
                        reason.append("' matched rule ");
                    },
                    None => {
                        reason.append("' matched rule ");
                    },
                }
                reason.append(number.as_str());
                reason
            },
            None => match context_hit {
                Some(context) => {
                    let mut reason = String::from_str("context '");
                    reason.append(context.as_str());
                    reason.append("' matched rule ");
                    reason.append(number.as_str());
                    reason
                },
                None => {
                    let mut reason = String::from_str("catch-all rule ");
                    reason.append(number.as_str());
                    reason.append(" matched");
                    reason
                },
            },
        }
    }
}

} // verus!
