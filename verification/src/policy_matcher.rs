//! Routing-policy matching: the resolver's second stage.
//!
//! [`PolicyMatcher`] takes the [`NormalizedTask`] the normalizer produced and
//! the user's [`RoutingPolicy`] and picks exactly one route for the turn: an
//! explicit model override, a matched [`RoutingRule`], or the policy's default
//! route. It never consults a provider: availability, capability gating,
//! fallback walking and locality belong to model selection.

use vstd::prelude::*;
use crate::normalizer::{spec_task_matches, NormalizedTask};
use crate::order::{is_key_order, key_before, lemma_first_in_order_is_least, order_by_key};
use crate::types::{
    reference_text, rule_specificity, specificity_rank, DefaultRoute, ModelReference,
    RoutingPolicy, RoutingRule, Skill, Specificity, TaskIntent,
};

verus! {

/// The error returned when a task cannot be routed.
#[derive(Debug, Clone, Copy, PartialEq, Eq, Structural)]
pub enum PolicyMatchError {
    /// No rule matched and the policy declares no default route.
    NoRoute,
}

/// Where a [`RouteMatch`] came from: an override, a matched rule, or the
/// default route. Each borrows the chosen model (and any fallback chain) from
/// the inputs.
#[derive(Debug)]
pub enum RouteSource<'a> {
    /// An explicit override bypassed rule matching.
    Override {
        /// The model the user pinned for the turn.
        model: &'a ModelReference,
    },
    /// The rule at this index of the policy's rules matched.
    Rule {
        /// Index of the matched rule in the policy's rule list.
        index: usize,
        /// The matched rule.
        rule: &'a RoutingRule,
    },
    /// No rule matched, so the default route was used.
    Default {
        /// The policy's default route.
        route: &'a DefaultRoute,
    },
}

/// The deterministic outcome of matching the routing policy to a task.
#[derive(Debug)]
pub struct RouteMatch<'a> {
    /// The task intent that drove routing.
    pub intent: TaskIntent,
    /// Where the route came from.
    pub source: RouteSource<'a>,
    /// Human-readable explanation of why this route was chosen.
    pub reason: String,
}

/// The primary model of a route.
pub open spec fn route_model(route: RouteMatch) -> ModelReference {
    match route.source {
        RouteSource::Override { model } => *model,
        RouteSource::Rule { rule, .. } => rule.model,
        RouteSource::Default { route } => route.model,
    }
}

/// The fallback chain of a route; an override has none.
pub open spec fn route_fallbacks(route: RouteMatch) -> Seq<ModelReference> {
    match route.source {
        RouteSource::Override { .. } => Seq::empty(),
        RouteSource::Rule { rule, .. } => rule.fallbacks@,
        RouteSource::Default { route } => route.fallbacks@,
    }
}

/// The matched rule of a route, if it came from one.
pub open spec fn route_rule(route: RouteMatch) -> Option<RoutingRule> {
    match route.source {
        RouteSource::Rule { rule, .. } => Some(*rule),
        _ => None,
    }
}

/// Whether a route came from an explicit override.
pub open spec fn route_is_override(route: RouteMatch) -> bool {
    route.source is Override
}

impl<'a> RouteMatch<'a> {
    /// The primary model the turn should be served by.
    pub fn model(&self) -> (model: &'a ModelReference)
        ensures
            *model == route_model(*self),
    {
        match self.source {
            RouteSource::Override { model } => model,
            RouteSource::Rule { rule, .. } => &rule.model,
            RouteSource::Default { route } => &route.model,
        }
    }

    /// The ordered fallback chain for the primary model. An override has no
    /// fallback chain: it is the user's deliberate choice.
    pub fn fallbacks(&self) -> (fallbacks: &'a [ModelReference])
        ensures
            fallbacks@ == route_fallbacks(*self),
    {
        match self.source {
            RouteSource::Override { .. } => &[],
            RouteSource::Rule { rule, .. } => rule.fallbacks.as_slice(),
            RouteSource::Default { route } => route.fallbacks.as_slice(),
        }
    }

    /// The matched rule, or `None` for an override or the default route.
    pub fn matched_rule(&self) -> (rule: Option<&'a RoutingRule>)
        ensures
            match rule {
                Some(r) => route_rule(*self) == Some(*r),
                None => route_rule(*self) is None,
            },
    {
        match self.source {
            RouteSource::Rule { rule, .. } => Some(rule),
            _ => None,
        }
    }

    /// Whether an explicit model override was used.
    pub fn override_used(&self) -> (r: bool)
        ensures
            r == route_is_override(*self),
    {
        match self.source {
            RouteSource::Override { .. } => true,
            _ => false,
        }
    }
}

/// The precedence key of a rule: ascending priority, then descending
/// specificity.
pub open spec fn precedence_key(rule: RoutingRule) -> u64 {
    (rule.priority as u64 * 4 + (3 - specificity_rank(rule_specificity(rule)))) as u64
}

/// The precedence keys of all rules.
pub open spec fn precedence_keys(rules: Seq<RoutingRule>) -> Seq<u64> {
    Seq::new(rules.len(), |i: int| precedence_key(rules[i]))
}

/// Whether rule `a` takes precedence over rule `b`: a lower priority value,
/// then a higher specificity, then an earlier position in the configuration.
pub open spec fn takes_precedence(rules: Seq<RoutingRule>, a: int, b: int) -> bool {
    let pa = rules[a].priority;
    let pb = rules[b].priority;
    let sa = specificity_rank(rule_specificity(rules[a]));
    let sb = specificity_rank(rule_specificity(rules[b]));
    pa < pb || (pa == pb && sa > sb) || (pa == pb && sa == sb && a < b)
}

/// Whether rule `k` is the highest-precedence rule whose conditions hold.
pub open spec fn is_winning_route_rule(task: NormalizedTask, rules: Seq<RoutingRule>, k: int) -> bool {
    &&& 0 <= k < rules.len()
    &&& spec_task_matches(task.classification.intent, task.skills@, task.touched_files.deep_view(), rules[k])
    &&& forall|j: int| 0 <= j < rules.len() && j != k
        && #[trigger] spec_task_matches(task.classification.intent, task.skills@, task.touched_files.deep_view(), rules[j])
        ==> takes_precedence(rules, k, j)
}

/// Whether any rule's conditions hold for the task.
pub open spec fn some_rule_matches(task: NormalizedTask, rules: Seq<RoutingRule>) -> bool {
    exists|j: int| 0 <= j < rules.len()
        && #[trigger] spec_task_matches(task.classification.intent, task.skills@, task.touched_files.deep_view(), rules[j])
}

/// The human-readable reason a rule matched, from its specificity.
pub open spec fn spec_rule_reason(rule: RoutingRule) -> Seq<char> {
    let name = rule.name@;
    match rule_specificity(rule) {
        Specificity::PathIntent => "rule '"@ + name + "' matched on intent and path"@,
        Specificity::Path => "rule '"@ + name + "' matched on path"@,
        Specificity::Intent => "rule '"@ + name + "' matched on intent"@,
        Specificity::Default => "rule '"@ + name + "' matched as a catch-all"@,
    }
}

/// Whether `r` is the route the policy gives `task` under the optional
/// override.
///
/// An override wins outright. Otherwise the highest-precedence matching rule
/// is chosen, and with none the default route is used.
pub open spec fn is_policy_route(r: RouteMatch, task: NormalizedTask, policy: RoutingPolicy, override_model: Option<&ModelReference>) -> bool {
    &&& r.intent == task.classification.intent
    &&& match override_model {
        Some(model) => {
            &&& r.source matches RouteSource::Override { model: m } && *m == *model
            &&& r.reason@ == "explicit model override '"@ + reference_text(*model) + "'"@
        },
        None => if some_rule_matches(task, policy.rules@) {
            &&& r.source matches RouteSource::Rule { index, rule } && is_winning_route_rule(task, policy.rules@, index as int) && *rule == policy.rules@[index as int]
            &&& r.reason@ == spec_rule_reason(policy.rules@[route_rule_index(r) as int])
        } else {
            &&& policy.default matches Some(default) && r.source matches RouteSource::Default { route } && *route == default
            &&& r.reason@ == "no rule matched; using the default route to '"@ + reference_text(policy.default->Some_0.model) + "'"@
        },
    }
}

/// The rule index of a route that came from a rule.
pub open spec fn route_rule_index(r: RouteMatch) -> usize {
    match r.source {
        RouteSource::Rule { index, .. } => index,
        _ => 0,
    }
}

/// The precedence key order is the precedence relation.
proof fn lemma_precedence_key(rules: Seq<RoutingRule>, a: int, b: int)
    requires
        0 <= a < rules.len(),
        0 <= b < rules.len(),
    ensures
        key_before(precedence_keys(rules), a, b) == takes_precedence(rules, a, b),
{
    let pa = rules[a].priority as int;
    let pb = rules[b].priority as int;
    let sa = specificity_rank(rule_specificity(rules[a])) as int;
    let sb = specificity_rank(rule_specificity(rules[b])) as int;
    assert(precedence_keys(rules)[a] == pa * 4 + (3 - sa));
    assert(precedence_keys(rules)[b] == pb * 4 + (3 - sb));
    assert(0 <= sa <= 3 && 0 <= sb <= 3);
    assert(pa < pb ==> pa * 4 + (3 - sa) < pb * 4 + (3 - sb)) by (nonlinear_arith)
        requires 0 <= sa <= 3, 0 <= sb <= 3;
    assert(pa > pb ==> pa * 4 + (3 - sa) > pb * 4 + (3 - sb)) by (nonlinear_arith)
        requires 0 <= sa <= 3, 0 <= sb <= 3;
}

/// Deterministic, LLM-free matcher of a routing policy to a normalized task.
#[derive(Debug, Default, Clone, Copy)]
pub struct PolicyMatcher;

impl PolicyMatcher {
    /// Picks exactly one route for `task` against `policy`.
    ///
    /// An `override_model` wins outright and bypasses rule matching.
    /// Otherwise the rules are evaluated in ascending priority, ties broken by
    /// descending specificity and then by configuration order, and the first
    /// rule whose conditions hold is chosen. When no rule matches, the
    /// policy's default route is used; with no default route, routing fails
    /// with [`PolicyMatchError::NoRoute`].
    pub fn match_policy<'a>(
        &self,
        task: &NormalizedTask,
        policy: &'a RoutingPolicy,
        override_model: Option<&'a ModelReference>,
    ) -> (r: Result<RouteMatch<'a>, PolicyMatchError>)
        ensures
            match r {
                Ok(route) => is_policy_route(route, *task, *policy, override_model),
                Err(e) => override_model is None && !some_rule_matches(*task, policy.rules@) && policy.default is None && e == PolicyMatchError::NoRoute,
            },
    {
        let intent = task.intent();
        match override_model {
            Some(model) => {
                let mut reason = String::from_str("explicit model override '");
                let text = model.text();
                reason.append(text.as_str());
                reason.append("'");
                return Ok(RouteMatch { intent, reason, source: RouteSource::Override { model } });
            },
            None => {},
        }
        match self.first_matching_rule(task, policy) {
            Some(index) => {
                let rule = &policy.rules[index];
                let reason = rule_reason(rule);
                return Ok(RouteMatch { intent, reason, source: RouteSource::Rule { index, rule } });
            },
            None => {},
        }
        match &policy.default {
            Some(route) => {
                let mut reason = String::from_str("no rule matched; using the default route to '");
                let text = route.model.text();
                reason.append(text.as_str());
                reason.append("'");
                Ok(RouteMatch { intent, reason, source: RouteSource::Default { route } })
            },
            None => Err(PolicyMatchError::NoRoute),
        }
    }

    /// Returns the index of the highest-precedence rule whose conditions hold.
    ///
    /// Rules are ordered by ascending priority, then descending specificity,
    /// then configuration order; the first match in that order wins.
    pub fn first_matching_rule(&self, task: &NormalizedTask, policy: &RoutingPolicy) -> (r: Option<usize>)
        ensures
            match r {
                Some(k) => is_winning_route_rule(*task, policy.rules@, k as int),
                None => !some_rule_matches(*task, policy.rules@),
            },
    {
        let ghost rules = policy.rules@;
        let mut keys: Vec<u64> = Vec::new();
        let mut i: usize = 0;
        while i < policy.rules.len()
            invariant
                i <= policy.rules.len(),
                rules == policy.rules@,
                keys@ =~= precedence_keys(rules).subrange(0, i as int),
            decreases policy.rules.len() - i,
        {
            let rule = &policy.rules[i];
            let rank: u64 = match rule.specificity() {
                Specificity::Default => 0,
                Specificity::Intent => 1,
                Specificity::Path => 2,
                Specificity::PathIntent => 3,
            };
            keys.push(rule.priority as u64 * 4 + (3 - rank));
            i = i + 1;
        }
        assert(keys@ =~= precedence_keys(rules));
        let order = order_by_key(&keys);
        let ghost matches = |j: int| spec_task_matches(task.classification.intent, task.skills@, task.touched_files.deep_view(), rules[j]);
        let mut p: usize = 0;
        while p < order.len()
            invariant
                p <= order.len(),
                rules == policy.rules@,
                is_key_order(order@, precedence_keys(rules)),
                matches == (|j: int| spec_task_matches(task.classification.intent, task.skills@, task.touched_files.deep_view(), rules[j])),
                forall|q: int| 0 <= q < p ==> !matches(#[trigger] order@[q] as int),
            decreases order.len() - p,
        {
            let index = order[p];
            if task.matches(&policy.rules[index]) {
                proof {
                    assert forall|j: int| 0 <= j < rules.len() && j != index
                        && #[trigger] spec_task_matches(task.classification.intent, task.skills@, task.touched_files.deep_view(), rules[j])
                        implies takes_precedence(rules, index as int, j) by {
                        assert(matches(j));
                        lemma_first_in_order_is_least(order@, precedence_keys(rules), p as int, j, matches);
                        lemma_precedence_key(rules, index as int, j);
                    }
                }
                return Some(index);
            }
            p = p + 1;
        }
        proof {
            assert forall|j: int| 0 <= j < rules.len() implies
                !#[trigger] spec_task_matches(task.classification.intent, task.skills@, task.touched_files.deep_view(), rules[j]) by {
                assert(crate::order::lists(order@, j));
                let q = choose|q: int| 0 <= q < order@.len() && #[trigger] order@[q] == j;
                assert(!matches(order@[q] as int));
            }
        }
        None
    }
}

/// Builds the human-readable reason a rule matched, from its specificity.
pub fn rule_reason(rule: &RoutingRule) -> (reason: String)
    ensures
        reason@ == spec_rule_reason(*rule),
{
    let mut reason = String::from_str("rule '");
    reason.append(rule.name.as_str());
    match rule.specificity() {
        Specificity::PathIntent => reason.append("' matched on intent and path"),
        Specificity::Path => reason.append("' matched on path"),
        Specificity::Intent => reason.append("' matched on intent"),
        Specificity::Default => reason.append("' matched as a catch-all"),
    }
    reason
}

} // verus!
