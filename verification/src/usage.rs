//! Session usage aggregation.
//!
//! A session's cost events are folded into the session total plus per-model
//! and per-task-type breakdowns. Token counts a provider never reported,
//! including those sealed in an encrypted session the router cannot open, are
//! omitted rather than guessed. Costs are decimal strings, parsed and summed
//! with `rust_decimal`.

use vstd::prelude::*;
use crate::types::{provider_id, Provider, TaskIntent};

verus! {

/// The largest magnitude a decimal's mantissa can have: 2^96 - 1.
pub const MAX_MANTISSA: i128 = 0xFFFF_FFFF_FFFF_FFFF_FFFF_FFFFi128;

/// The largest scale a decimal can have.
pub const MAX_DECIMAL_SCALE: u32 = 28;

/// The currency every reported cost is priced in.
pub open spec fn usage_currency() -> Seq<char> {
    "USD"@
}

/// A decimal amount `mantissa / 10^scale`, as `rust_decimal::Decimal` holds
/// one.
#[derive(Debug, Clone, Copy, PartialEq, Eq, Structural)]
pub struct Amount {
    /// The integer whose `scale` last digits are the fraction.
    pub mantissa: i128,
    /// The number of fractional digits.
    pub scale: u32,
}

/// The parts of an amount.
pub open spec fn amount_parts(a: Amount) -> (i128, u32) {
    (a.mantissa, a.scale)
}

/// Whether the parts are those of a `Decimal`: a mantissa of at most 96 bits
/// and a scale of at most 28.
pub open spec fn is_decimal(parts: (i128, u32)) -> bool {
    -MAX_MANTISSA <= parts.0 <= MAX_MANTISSA && parts.1 <= MAX_DECIMAL_SCALE
}

/// The parts of the `Decimal` that `str::parse::<Decimal>` reads from
/// `text`, or `None` when it refuses the text.
pub uninterp spec fn parsed_decimal(text: Seq<char>) -> Option<(i128, u32)>;

/// The parts of the `Decimal` that `Decimal::checked_add` returns for the
/// decimals with parts `a` and `b`, or `None` when the sum overflows.
pub uninterp spec fn decimal_sum(a: (i128, u32), b: (i128, u32)) -> Option<(i128, u32)>;

/// Calls `str::parse::<rust_decimal::Decimal>` and takes the result apart
/// with `Decimal::mantissa` and `Decimal::scale`. The contract names the
/// parts, and states what the crate documents of every `Decimal`: its
/// mantissa has at most 96 bits and its scale is at most 28.
#[verifier::external_body]
fn parse_decimal(text: &str) -> (r: Option<Amount>)
    ensures
        match r {
            Some(a) => parsed_decimal(text@) == Some(amount_parts(a)) && is_decimal(amount_parts(a)),
            None => parsed_decimal(text@) is None,
        },
{
    match text.parse::<rust_decimal::Decimal>() {
        Ok(d) => Some(Amount { mantissa: d.mantissa(), scale: d.scale() }),
        Err(_) => None,
    }
}

/// Builds the two decimals with `Decimal::from_i128_with_scale` (which panics
/// outside the decimal range, hence the precondition) and adds them with
/// `Decimal::checked_add`. The contract names the sum's parts, and states
/// that a sum is a `Decimal` again.
#[verifier::external_body]
fn add_decimals(a: Amount, b: Amount) -> (r: Option<Amount>)
    requires
        is_decimal(amount_parts(a)),
        is_decimal(amount_parts(b)),
    ensures
        match r {
            Some(s) => decimal_sum(amount_parts(a), amount_parts(b)) == Some(amount_parts(s)) && is_decimal(amount_parts(s)),
            None => decimal_sum(amount_parts(a), amount_parts(b)) is None,
        },
{
    let x = rust_decimal::Decimal::from_i128_with_scale(a.mantissa, a.scale);
    let y = rust_decimal::Decimal::from_i128_with_scale(b.mantissa, b.scale);
    match x.checked_add(y) {
        Some(d) => Some(Amount { mantissa: d.mantissa(), scale: d.scale() }),
        None => None,
    }
}

/// The readable part of a cost event: the tokens a provider reported and
/// the estimated cost, a decimal string, when it priced the call.
#[derive(Debug)]
pub struct CostPayload {
    /// Reported input tokens.
    pub input_tokens: u64,
    /// Reported output tokens.
    pub output_tokens: u64,
    /// The estimated cost, as a decimal string, when known.
    pub cost: Option<String>,
}

/// One cost event of a session.
#[derive(Debug)]
pub struct CostEvent {
    /// The task the call served.
    pub task_type: TaskIntent,
    /// The provider that served it.
    pub provider: Provider,
    /// The model that served it.
    pub model: String,
    /// The cost payload, or `None` when it is sealed (an encrypted session)
    /// and so unreadable.
    pub cost: Option<CostPayload>,
}

/// Token and cost usage, with the tokens never reported omitted.
#[derive(Debug)]
pub struct Usage {
    /// Reported input tokens.
    pub input_tokens: Option<u64>,
    /// Reported output tokens.
    pub output_tokens: Option<u64>,
    /// Input plus output tokens.
    pub total_tokens: Option<u64>,
    /// The currency of the estimated cost, present exactly when it is.
    pub currency: Option<String>,
    /// The summed estimated cost, when any call priced it.
    pub estimated_cost: Option<Amount>,
}

/// Usage of one model.
#[derive(Debug)]
pub struct ModelUsage {
    /// The model's provider.
    pub provider: Provider,
    /// The model.
    pub model: String,
    /// The number of calls it served.
    pub request_count: u32,
    /// Its usage.
    pub usage: Usage,
}

/// Usage of one task type.
#[derive(Debug)]
pub struct TaskTypeUsage {
    /// The task type.
    pub task_type: TaskIntent,
    /// The number of calls that served it.
    pub request_count: u32,
    /// Its usage.
    pub usage: Usage,
}

/// A session's usage: the total plus per-model and per-task-type
/// breakdowns, each in first-seen order.
#[derive(Debug)]
pub struct SessionUsageResponse {
    /// The session total.
    pub total: Usage,
    /// Usage per model.
    pub by_model: Vec<ModelUsage>,
    /// Usage per task type.
    pub by_task_type: Vec<TaskTypeUsage>,
}

/// Running token and cost totals for one aggregation bucket.
#[derive(Debug, Clone, Copy)]
pub struct UsageTally {
    /// Reported input tokens summed across the bucket's events.
    pub input_tokens: u64,
    /// Reported output tokens summed across the bucket's events.
    pub output_tokens: u64,
    /// Summed estimated cost, present only when at least one event priced
    /// it.
    pub estimated_cost: Option<Amount>,
    /// Whether any readable event contributed token counts.
    pub has_tokens: bool,
    /// Number of events folded into the bucket.
    pub request_count: u32,
}

/// The plain-value form of a tally.
pub struct TallyView {
    /// Summed input tokens.
    pub input_tokens: nat,
    /// Summed output tokens.
    pub output_tokens: nat,
    /// Summed cost parts, when any.
    pub cost: Option<(i128, u32)>,
    /// Whether any readable event contributed tokens.
    pub has_tokens: bool,
    /// Number of events.
    pub requests: nat,
}

/// The plain-value form of a tally.
pub open spec fn tally_view(t: UsageTally) -> TallyView {
    TallyView {
        input_tokens: t.input_tokens as nat,
        output_tokens: t.output_tokens as nat,
        cost: match t.estimated_cost {
            Some(a) => Some(amount_parts(a)),
            None => None,
        },
        has_tokens: t.has_tokens,
        requests: t.request_count as nat,
    }
}

/// The empty tally.
pub open spec fn empty_tally() -> TallyView {
    TallyView { input_tokens: 0, output_tokens: 0, cost: None, has_tokens: false, requests: 0 }
}

/// Folds one event's cost into a tally, or `None` when a count or the
/// running cost overflows.
///
/// The request is always counted. A sealed event contributes nothing else.
/// A readable one adds its tokens, and its cost when it parses as a decimal
/// (an unparsable cost is skipped); the first cost is added to zero.
pub open spec fn tally_step(t: TallyView, cost: Option<CostPayload>) -> Option<TallyView> {
    if t.requests + 1 > u32::MAX {
        None
    } else {
        match cost {
            None => Some(TallyView {
                input_tokens: t.input_tokens,
                output_tokens: t.output_tokens,
                cost: t.cost,
                has_tokens: t.has_tokens,
                requests: t.requests + 1,
            }),
            Some(c) => if t.input_tokens + c.input_tokens > u64::MAX || t.output_tokens + c.output_tokens > u64::MAX {
                None
            } else {
                let running = match c.cost {
                    Some(raw) => match parsed_decimal(raw@) {
                        Some(amount) => match t.cost {
                            Some(sum) => decimal_sum(sum, amount),
                            None => decimal_sum((0, 0), amount),
                        },
                        None => t.cost,
                    },
                    None => t.cost,
                };
                let overflowed = c.cost matches Some(raw) && parsed_decimal(raw@) is Some && running is None;
                if overflowed {
                    None
                } else {
                    Some(TallyView {
                        input_tokens: (t.input_tokens + c.input_tokens) as nat,
                        output_tokens: (t.output_tokens + c.output_tokens) as nat,
                        cost: running,
                        has_tokens: true,
                        requests: t.requests + 1,
                    })
                }
            },
        }
    }
}

/// The tally of a sequence of event costs, or `None` when folding them
/// overflows.
pub open spec fn tally_of(costs: Seq<Option<CostPayload>>) -> Option<TallyView>
    decreases costs.len(),
{
    if costs.len() == 0 {
        Some(empty_tally())
    } else {
        match tally_of(costs.drop_last()) {
            Some(t) => tally_step(t, costs.last()),
            None => None,
        }
    }
}

/// The costs of the events, in order.
pub open spec fn costs_of(events: Seq<CostEvent>) -> Seq<Option<CostPayload>> {
    events.map_values(|e: CostEvent| e.cost)
}

/// The identity of the model an event was served by.
pub open spec fn model_key(e: CostEvent) -> ((int, Seq<char>), Seq<char>) {
    (provider_id(e.provider), e.model@)
}

/// Whether one of `firsts` was served by the model with identity `key`.
pub open spec fn holds_model(firsts: Seq<CostEvent>, key: ((int, Seq<char>), Seq<char>)) -> bool {
    exists|j: int| 0 <= j < firsts.len() && model_key(#[trigger] firsts[j]) == key
}

/// The first event of each model, in first-seen order.
pub open spec fn model_firsts(events: Seq<CostEvent>) -> Seq<CostEvent>
    decreases events.len(),
{
    if events.len() == 0 {
        Seq::empty()
    } else {
        let firsts = model_firsts(events.drop_last());
        if holds_model(firsts, model_key(events.last())) {
            firsts
        } else {
            firsts.push(events.last())
        }
    }
}

/// The costs of the events served by the model with identity `key`.
pub open spec fn model_costs(events: Seq<CostEvent>, key: ((int, Seq<char>), Seq<char>)) -> Seq<Option<CostPayload>>
    decreases events.len(),
{
    if events.len() == 0 {
        Seq::empty()
    } else {
        let rest = model_costs(events.drop_last(), key);
        if model_key(events.last()) == key {
            rest.push(events.last().cost)
        } else {
            rest
        }
    }
}

/// The task types of the events, in first-seen order.
pub open spec fn task_types(events: Seq<CostEvent>) -> Seq<TaskIntent>
    decreases events.len(),
{
    if events.len() == 0 {
        Seq::empty()
    } else {
        let kinds = task_types(events.drop_last());
        if kinds.contains(events.last().task_type) {
            kinds
        } else {
            kinds.push(events.last().task_type)
        }
    }
}

/// The costs of the events that served the task type `kind`.
pub open spec fn task_costs(events: Seq<CostEvent>, kind: TaskIntent) -> Seq<Option<CostPayload>>
    decreases events.len(),
{
    if events.len() == 0 {
        Seq::empty()
    } else {
        let rest = task_costs(events.drop_last(), kind);
        if events.last().task_type == kind {
            rest.push(events.last().cost)
        } else {
            rest
        }
    }
}

/// Whether a tally can be reported: it folded without overflow and its
/// total token count fits.
pub open spec fn tally_fits(t: Option<TallyView>) -> bool {
    t matches Some(v) && v.input_tokens + v.output_tokens <= u64::MAX
}

/// Whether the events can be aggregated: the total and the bucket of every
/// event's model and task type fold without overflow, and their token
/// totals fit.
pub open spec fn usage_fits(events: Seq<CostEvent>) -> bool {
    &&& tally_fits(tally_of(costs_of(events)))
    &&& forall|k: int| 0 <= k < events.len() ==> tally_fits(tally_of(model_costs(events, model_key(#[trigger] events[k]))))
    &&& forall|k: int| 0 <= k < events.len() ==> tally_fits(tally_of(task_costs(events, (#[trigger] events[k]).task_type)))
}

/// Whether `u` reports the tally `t`: tokens only when some were reported,
/// and the currency exactly when a cost is present.
pub open spec fn is_usage_of(u: Usage, t: TallyView) -> bool {
    &&& u.input_tokens == (if t.has_tokens { Some(t.input_tokens as u64) } else { None })
    &&& u.output_tokens == (if t.has_tokens { Some(t.output_tokens as u64) } else { None })
    &&& u.total_tokens == (if t.has_tokens { Some((t.input_tokens + t.output_tokens) as u64) } else { None })
    &&& match u.estimated_cost {
        Some(a) => t.cost == Some(amount_parts(a)),
        None => t.cost is None,
    }
    &&& match u.currency {
        Some(c) => t.cost is Some && c@ == usage_currency(),
        None => t.cost is None,
    }
}

/// Whether `r` is the usage report of `events`: the total over all events,
/// one entry per model and per task type in first-seen order, each over the
/// events of its bucket.
pub open spec fn is_session_usage(r: SessionUsageResponse, events: Seq<CostEvent>) -> bool {
    &&& is_usage_of(r.total, tally_of(costs_of(events))->Some_0)
    &&& r.by_model.len() == model_firsts(events).len()
    &&& forall|i: int| 0 <= i < r.by_model.len() ==> {
        let first = model_firsts(events)[i];
        let tally = tally_of(model_costs(events, model_key(first)))->Some_0;
        &&& (#[trigger] r.by_model[i]).provider == first.provider
        &&& r.by_model[i].model@ == first.model@
        &&& r.by_model[i].request_count == tally.requests
        &&& is_usage_of(r.by_model[i].usage, tally)
    }
    &&& r.by_task_type.len() == task_types(events).len()
    &&& forall|i: int| 0 <= i < r.by_task_type.len() ==> {
        let kind = task_types(events)[i];
        let tally = tally_of(task_costs(events, kind))->Some_0;
        &&& (#[trigger] r.by_task_type[i]).task_type == kind
        &&& r.by_task_type[i].request_count == tally.requests
        &&& is_usage_of(r.by_task_type[i].usage, tally)
    }
}

impl UsageTally {
    /// The empty tally.
    pub fn new() -> (t: UsageTally)
        ensures
            tally_view(t) == empty_tally(),
    {
        UsageTally { input_tokens: 0, output_tokens: 0, estimated_cost: None, has_tokens: false, request_count: 0 }
    }

    /// Folds one event's cost into the tally, returning `false` (and leaving
    /// the tally as it was) when a count or the running cost would overflow.
    ///
    /// `cost` is `None` for a sealed event, so only its request is counted.
    pub fn try_add(&mut self, cost: &Option<CostPayload>) -> (added: bool)
        requires
            old(self).estimated_cost matches Some(a) ==> is_decimal(amount_parts(a)),
        ensures
            added == tally_step(tally_view(*old(self)), *cost) is Some,
            added ==> tally_view(*final(self)) == tally_step(tally_view(*old(self)), *cost)->Some_0,
            !added ==> *final(self) == *old(self),
            final(self).estimated_cost matches Some(a) ==> is_decimal(amount_parts(a)),
    {
        if self.request_count == u32::MAX {
            return false;
        }
        match cost {
            None => {
                self.request_count = self.request_count + 1;
                true
            },
            Some(c) => {
                if self.input_tokens > u64::MAX - c.input_tokens || self.output_tokens > u64::MAX - c.output_tokens {
                    return false;
                }
                let mut running = self.estimated_cost;
                match &c.cost {
                    Some(raw) => match parse_decimal(raw.as_str()) {
                        Some(amount) => {
                            let base = match self.estimated_cost {
                                Some(sum) => sum,
                                None => Amount { mantissa: 0, scale: 0 },
                            };
                            match add_decimals(base, amount) {
                                Some(sum) => {
                                    running = Some(sum);
                                },
                                None => {
                                    return false;
                                },
                            }
                        },
                        // Stored costs are written as decimal strings; an
                        // unparsable one is tampered data, so it is skipped.
                        None => {},
                    },
                    None => {},
                }
                self.input_tokens = self.input_tokens + c.input_tokens;
                self.output_tokens = self.output_tokens + c.output_tokens;
                self.has_tokens = true;
                self.request_count = self.request_count + 1;
                self.estimated_cost = running;
                true
            },
        }
    }

    /// Renders the tally as a [`Usage`], omitting tokens never reported. The
    /// currency is present exactly when a cost is.
    pub fn into_usage(self) -> (u: Usage)
        requires
            self.input_tokens + self.output_tokens <= u64::MAX,
        ensures
            is_usage_of(u, tally_view(self)),
    {
        let currency = match self.estimated_cost {
            Some(_) => {
                let c = String::from_str("USD");
                proof {
                    reveal_strlit("USD");
                }
                Some(c)
            },
            None => None,
        };
        if self.has_tokens {
            Usage {
                input_tokens: Some(self.input_tokens),
                output_tokens: Some(self.output_tokens),
                total_tokens: Some(self.input_tokens + self.output_tokens),
                currency,
                estimated_cost: self.estimated_cost,
            }
        } else {
            Usage { input_tokens: None, output_tokens: None, total_tokens: None, currency, estimated_cost: self.estimated_cost }
        }
    }
}

/// A tally that overflowed stays overflowed however many events follow.
proof fn lemma_tally_none_persists(s: Seq<Option<CostPayload>>, n: int)
    requires
        0 <= n <= s.len(),
        tally_of(s.subrange(0, n)) is None,
    ensures
        tally_of(s) is None,
    decreases s.len() - n,
{
    if n < s.len() {
        assert(s.subrange(0, n + 1).drop_last() =~= s.subrange(0, n));
        lemma_tally_none_persists(s, n + 1);
    } else {
        assert(s.subrange(0, n) =~= s);
    }
}

/// A model bucket that overflowed on a prefix of the events overflows on all
/// of them.
proof fn lemma_model_none_persists(events: Seq<CostEvent>, key: ((int, Seq<char>), Seq<char>), n: int)
    requires
        0 <= n <= events.len(),
        tally_of(model_costs(events.subrange(0, n), key)) is None,
    ensures
        tally_of(model_costs(events, key)) is None,
    decreases events.len() - n,
{
    if n < events.len() {
        let next = events.subrange(0, n + 1);
        assert(next.drop_last() =~= events.subrange(0, n));
        if model_key(next.last()) == key {
            assert(model_costs(next, key).drop_last() =~= model_costs(events.subrange(0, n), key));
        }
        lemma_model_none_persists(events, key, n + 1);
    } else {
        assert(events.subrange(0, n) =~= events);
    }
}

/// A task bucket that overflowed on a prefix of the events overflows on all
/// of them.
proof fn lemma_task_none_persists(events: Seq<CostEvent>, kind: TaskIntent, n: int)
    requires
        0 <= n <= events.len(),
        tally_of(task_costs(events.subrange(0, n), kind)) is None,
    ensures
        tally_of(task_costs(events, kind)) is None,
    decreases events.len() - n,
{
    if n < events.len() {
        let next = events.subrange(0, n + 1);
        assert(next.drop_last() =~= events.subrange(0, n));
        if next.last().task_type == kind {
            assert(task_costs(next, kind).drop_last() =~= task_costs(events.subrange(0, n), kind));
        }
        lemma_task_none_persists(events, kind, n + 1);
    } else {
        assert(events.subrange(0, n) =~= events);
    }
}

/// A model no event was served by has no costs.
pub proof fn lemma_unseen_model(events: Seq<CostEvent>, key: ((int, Seq<char>), Seq<char>))
    requires
        !holds_model(model_firsts(events), key),
    ensures
        model_costs(events, key) == Seq::<Option<CostPayload>>::empty(),
    decreases events.len(),
{
    if events.len() > 0 {
        let prev = events.drop_last();
        let firsts = model_firsts(prev);
        if holds_model(firsts, key) {
            let j = choose|j: int| 0 <= j < firsts.len() && model_key(#[trigger] firsts[j]) == key;
            if !holds_model(firsts, model_key(events.last())) {
                assert(firsts.push(events.last())[j] == firsts[j]);
            }
            assert(false);
        }
        if model_key(events.last()) == key {
            if !holds_model(firsts, model_key(events.last())) {
                assert(firsts.push(events.last())[firsts.len() as int] == events.last());
            }
            assert(false);
        }
        if !holds_model(firsts, model_key(events.last())) {
            assert forall|j: int| 0 <= j < firsts.len() implies model_key(#[trigger] firsts[j]) != key by {
                assert(firsts.push(events.last())[j] == firsts[j]);
            }
        }
        lemma_unseen_model(prev, key);
    }
}

/// A task type no event served has no costs.
pub proof fn lemma_unseen_task(events: Seq<CostEvent>, kind: TaskIntent)
    requires
        !task_types(events).contains(kind),
    ensures
        task_costs(events, kind) == Seq::<Option<CostPayload>>::empty(),
    decreases events.len(),
{
    if events.len() > 0 {
        let prev = events.drop_last();
        let kinds = task_types(prev);
        if kinds.contains(kind) {
            let j = choose|j: int| 0 <= j < kinds.len() && kinds[j] == kind;
            if !kinds.contains(events.last().task_type) {
                assert(kinds.push(events.last().task_type)[j] == kind);
            }
            assert(false);
        }
        if events.last().task_type == kind {
            if !kinds.contains(kind) {
                assert(kinds.push(kind)[kinds.len() as int] == kind);
            }
            assert(false);
        }
        lemma_unseen_task(prev, kind);
    }
}

/// Whether the bucket state describes the events seen so far: the total,
/// one tally per model (kept with the index of its first event) and one per
/// task type, each the tally of its bucket, every cost a decimal.
pub open spec fn folded(
    events: Seq<CostEvent>,
    n: int,
    total: UsageTally,
    firsts: Seq<usize>,
    model_tallies: Seq<UsageTally>,
    kinds: Seq<TaskIntent>,
    kind_tallies: Seq<UsageTally>,
) -> bool {
    let seen = events.subrange(0, n);
    &&& 0 <= n <= events.len()
    &&& tally_of(costs_of(seen)) == Some(tally_view(total))
    &&& (total.estimated_cost matches Some(a) ==> is_decimal(amount_parts(a)))
    &&& firsts.len() == model_tallies.len()
    &&& forall|j: int| 0 <= j < firsts.len() ==> (#[trigger] firsts[j]) < n
    &&& model_firsts(seen) == firsts.map_values(|k: usize| events[k as int])
    &&& forall|j1: int, j2: int| 0 <= j1 < j2 < firsts.len()
        ==> model_key(events[#[trigger] firsts[j1] as int]) != model_key(events[#[trigger] firsts[j2] as int])
    &&& forall|q: int| 0 <= q < n ==> holds_model(model_firsts(seen), model_key(#[trigger] events[q]))
    &&& forall|j: int| 0 <= j < firsts.len() ==> tally_of(model_costs(seen, model_key(events[#[trigger] firsts[j] as int])))
        == Some(tally_view(model_tallies[j]))
    &&& forall|j: int| 0 <= j < model_tallies.len() ==> ((#[trigger] model_tallies[j]).estimated_cost matches Some(a) ==> is_decimal(amount_parts(a)))
    &&& kinds.len() == kind_tallies.len()
    &&& task_types(seen) == kinds
    &&& forall|j1: int, j2: int| 0 <= j1 < j2 < kinds.len() ==> #[trigger] kinds[j1] != #[trigger] kinds[j2]
    &&& forall|q: int| 0 <= q < n ==> kinds.contains((#[trigger] events[q]).task_type)
    &&& forall|j: int| 0 <= j < kinds.len() ==> tally_of(task_costs(seen, #[trigger] kinds[j])) == Some(tally_view(kind_tallies[j]))
    &&& forall|j: int| 0 <= j < kind_tallies.len() ==> ((#[trigger] kind_tallies[j]).estimated_cost matches Some(a) ==> is_decimal(amount_parts(a)))
}

/// Whether an event was served by the model its `provider` and `model`
/// name.
fn same_model(event: &CostEvent, provider: &Provider, model: &String) -> (r: bool)
    ensures
        r == (model_key(*event) == (provider_id(*provider), model@)),
{
    event.provider.same(provider) && event.model == *model
}

/// Folds every cost event into the total and the per-model and
/// per-task-type tallies, or `None` when a count or a summed cost
/// overflows.
fn fold_events(events: &Vec<CostEvent>) -> (r: Option<(UsageTally, Vec<usize>, Vec<UsageTally>, Vec<TaskIntent>, Vec<UsageTally>)>)
    ensures
        match r {
            Some((total, firsts, model_tallies, kinds, kind_tallies)) =>
                folded(events@, events@.len() as int, total, firsts@, model_tallies@, kinds@, kind_tallies@),
            None => !usage_fits(events@),
        },
{
    let ghost all = events@;
    let mut total = UsageTally::new();
    let mut firsts: Vec<usize> = Vec::new();
    let mut model_tallies: Vec<UsageTally> = Vec::new();
    let mut kinds: Vec<TaskIntent> = Vec::new();
    let mut kind_tallies: Vec<UsageTally> = Vec::new();
    let mut i: usize = 0;
    proof {
        assert(all.subrange(0, 0) =~= Seq::<CostEvent>::empty());
        assert(costs_of(all.subrange(0, 0)) =~= Seq::<Option<CostPayload>>::empty());
        assert(firsts@.map_values(|k: usize| all[k as int]) =~= Seq::<CostEvent>::empty());
    }
    while i < events.len()
        invariant
            all == events@,
            folded(all, i as int, total, firsts@, model_tallies@, kinds@, kind_tallies@),
        decreases events.len() - i,
    {
        let ghost seen = all.subrange(0, i as int);
        let ghost next = all.subrange(0, i + 1);
        let ghost e = all[i as int];
        proof {
            assert(next.drop_last() =~= seen);
            assert(next.last() == e);
            assert(costs_of(next) =~= costs_of(seen).push(e.cost));
            assert(costs_of(seen).push(e.cost).drop_last() =~= costs_of(seen));
            assert forall|key: ((int, Seq<char>), Seq<char>)| #[trigger] model_costs(next, key)
                == (if model_key(e) == key { model_costs(seen, key).push(e.cost) } else { model_costs(seen, key) }) by {}
            assert forall|kind: TaskIntent| #[trigger] task_costs(next, kind)
                == (if e.task_type == kind { task_costs(seen, kind).push(e.cost) } else { task_costs(seen, kind) }) by {}
            assert forall|key: ((int, Seq<char>), Seq<char>)| model_costs(seen, key).push(e.cost).drop_last() =~= #[trigger] model_costs(seen, key) by {}
            assert forall|kind: TaskIntent| task_costs(seen, kind).push(e.cost).drop_last() =~= #[trigger] task_costs(seen, kind) by {}
        }
        let event = &events[i];
        let ghost total_before = total;
        if !total.try_add(&event.cost) {
            proof {
                assert(tally_of(costs_of(next)) is None);
                assert(costs_of(next) =~= costs_of(all).subrange(0, i + 1));
                lemma_tally_none_persists(costs_of(all), i + 1);
            }
            return None;
        }

        // The model bucket.
        let ghost firsts_before = firsts@;
        let ghost model_before = model_tallies@;
        let mut j: usize = 0;
        while j < firsts.len() && !same_model(event, &events[firsts[j]].provider, &events[firsts[j]].model)
            invariant
                all == events@,
                e == all[i as int],
                *event == e,
                j <= firsts.len(),
                forall|q: int| 0 <= q < firsts@.len() ==> (#[trigger] firsts@[q]) < i,
                i < all.len(),
                forall|q: int| 0 <= q < j ==> model_key(all[#[trigger] firsts@[q] as int]) != model_key(e),
            decreases firsts.len() - j,
        {
            j = j + 1;
        }
        let ghost key = model_key(e);
        if j < firsts.len() {
            let ghost first = all[firsts@[j as int] as int];
            assert(model_key(first) == key);
            let mut tally = model_tallies[j];
            assert(tally_of(model_costs(seen, key)) == Some(tally_view(tally)));
            if !tally.try_add(&event.cost) {
                proof {
                    assert(tally_of(model_costs(next, key)) is None);
                    assert(next == all.subrange(0, i + 1));
                    lemma_model_none_persists(all, key, i + 1);
                    assert(!tally_fits(tally_of(model_costs(all, model_key(all[i as int])))));
                }
                return None;
            }
            proof {
                assert(model_firsts(seen)[j as int] == first);
                assert(holds_model(model_firsts(seen), key));
                assert(model_firsts(next) == model_firsts(seen));
                assert forall|q: int| 0 <= q < firsts@.len() && q != j implies model_key(all[#[trigger] firsts@[q] as int]) != key by {
                    if q > j {
                        assert(model_key(all[firsts@[j as int] as int]) != model_key(all[firsts@[q] as int]));
                    }
                }
            }
            model_tallies.set(j, tally);
        } else {
            let mut tally = UsageTally::new();
            proof {
                assert forall|q: int| 0 <= q < model_firsts(seen).len() implies model_key(#[trigger] model_firsts(seen)[q]) != key by {
                    assert(model_firsts(seen)[q] == all[firsts@[q] as int]);
                }
                lemma_unseen_model(seen, key);
                assert(model_costs(next, key) =~= seq![e.cost]);
                assert(seq![e.cost].drop_last() =~= Seq::<Option<CostPayload>>::empty());
            }
            if !tally.try_add(&event.cost) {
                proof {
                    assert(tally_of(model_costs(next, key)) is None);
                    assert(next == all.subrange(0, i + 1));
                    lemma_model_none_persists(all, key, i + 1);
                    assert(!tally_fits(tally_of(model_costs(all, model_key(all[i as int])))));
                }
                return None;
            }
            firsts.push(i);
            model_tallies.push(tally);
            proof {
                assert(model_firsts(next) == model_firsts(seen).push(e));
                assert(firsts@.map_values(|k: usize| all[k as int]) =~= firsts_before.map_values(|k: usize| all[k as int]).push(e));
            }
        }

        // The task-type bucket.
        let kind = event.task_type;
        let ghost kinds_before = kinds@;
        let mut t: usize = 0;
        while t < kinds.len() && kinds[t] != kind
            invariant
                t <= kinds.len(),
                forall|q: int| 0 <= q < t ==> kinds@[q] != kind,
            decreases kinds.len() - t,
        {
            t = t + 1;
        }
        if t < kinds.len() {
            let mut tally = kind_tallies[t];
            assert(tally_of(task_costs(seen, kind)) == Some(tally_view(tally)));
            if !tally.try_add(&event.cost) {
                proof {
                    assert(tally_of(task_costs(next, kind)) is None);
                    assert(next == all.subrange(0, i + 1));
                    lemma_task_none_persists(all, kind, i + 1);
                    assert(!tally_fits(tally_of(task_costs(all, all[i as int].task_type))));
                }
                return None;
            }
            proof {
                assert(task_types(seen).contains(kind));
                assert(task_types(next) == task_types(seen));
            }
            kind_tallies.set(t, tally);
        } else {
            let mut tally = UsageTally::new();
            proof {
                assert(!task_types(seen).contains(kind));
                lemma_unseen_task(seen, kind);
                assert(task_costs(next, kind) =~= seq![e.cost]);
                assert(seq![e.cost].drop_last() =~= Seq::<Option<CostPayload>>::empty());
            }
            if !tally.try_add(&event.cost) {
                proof {
                    assert(tally_of(task_costs(next, kind)) is None);
                    assert(next == all.subrange(0, i + 1));
                    lemma_task_none_persists(all, kind, i + 1);
                    assert(!tally_fits(tally_of(task_costs(all, all[i as int].task_type))));
                }
                return None;
            }
            kinds.push(kind);
            kind_tallies.push(tally);
        }
        proof {
            let firsts_now = firsts@;
            assert(model_firsts(next) == firsts_now.map_values(|k: usize| all[k as int]));
            assert forall|q: int| 0 <= q < i + 1 implies holds_model(model_firsts(next), model_key(#[trigger] all[q])) by {
                if q < i {
                    assert(seen[q] == all[q]);
                    let w = choose|w: int| 0 <= w < model_firsts(seen).len() && model_key(#[trigger] model_firsts(seen)[w]) == model_key(all[q]);
                    assert(model_firsts(next)[w] == model_firsts(seen)[w]);
                } else {
                    if j < firsts_before.len() {
                        assert(model_firsts(next)[j as int] == all[firsts_now[j as int] as int]);
                    } else {
                        assert(model_firsts(next)[firsts_before.len() as int] == e);
                    }
                }
            }
            assert forall|q: int| 0 <= q < i + 1 implies kinds@.contains((#[trigger] all[q]).task_type) by {
                if q < i {
                    assert(seen[q] == all[q]);
                    let w = choose|w: int| 0 <= w < kinds_before.len() && kinds_before[w] == all[q].task_type;
                    assert(kinds@[w] == kinds_before[w]);
                } else {
                    if t < kinds_before.len() {
                        assert(kinds@[t as int] == kind);
                    } else {
                        assert(kinds@[kinds_before.len() as int] == kind);
                    }
                }
            }
            assert(folded(all, i + 1, total, firsts@, model_tallies@, kinds@, kind_tallies@));
        }
        i = i + 1;
    }
    proof {
        assert(all.subrange(0, all.len() as int) =~= all);
    }
    Some((total, firsts, model_tallies, kinds, kind_tallies))
}

/// Every task type listed is the task type of some event.
pub proof fn lemma_task_types_seen(events: Seq<CostEvent>)
    ensures
        forall|w: int| 0 <= w < task_types(events).len()
            ==> exists|q: int| 0 <= q < events.len() && (#[trigger] events[q]).task_type == #[trigger] task_types(events)[w],
    decreases events.len(),
{
    if events.len() > 0 {
        let prev = events.drop_last();
        lemma_task_types_seen(prev);
        let kinds = task_types(prev);
        assert forall|w: int| 0 <= w < task_types(events).len()
            implies exists|q: int| 0 <= q < events.len() && (#[trigger] events[q]).task_type == #[trigger] task_types(events)[w] by {
            if w < kinds.len() {
                let q = choose|q: int| 0 <= q < prev.len() && (#[trigger] prev[q]).task_type == kinds[w];
                assert(events[q] == prev[q]);
                if !kinds.contains(events.last().task_type) {
                    assert(task_types(events)[w] == kinds[w]);
                }
            } else {
                assert(events[events.len() - 1] == events.last());
            }
        }
    }
}

/// Every first event of a model bucket is one of the events.
pub proof fn lemma_model_firsts_seen(events: Seq<CostEvent>)
    ensures
        forall|w: int| 0 <= w < model_firsts(events).len()
            ==> exists|q: int| 0 <= q < events.len() && #[trigger] events[q] == #[trigger] model_firsts(events)[w],
    decreases events.len(),
{
    if events.len() > 0 {
        let prev = events.drop_last();
        lemma_model_firsts_seen(prev);
        let firsts = model_firsts(prev);
        assert forall|w: int| 0 <= w < model_firsts(events).len()
            implies exists|q: int| 0 <= q < events.len() && #[trigger] events[q] == #[trigger] model_firsts(events)[w] by {
            if w < firsts.len() {
                let q = choose|q: int| 0 <= q < prev.len() && #[trigger] prev[q] == firsts[w];
                assert(events[q] == prev[q]);
                if !holds_model(firsts, model_key(events.last())) {
                    assert(model_firsts(events)[w] == firsts[w]);
                }
            } else {
                assert(events[events.len() - 1] == events.last());
            }
        }
    }
}

/// When the events can be aggregated, the bucket of each listed model folds.
pub proof fn lemma_first_bucket_fits(events: Seq<CostEvent>, i: int)
    requires
        usage_fits(events),
        0 <= i < model_firsts(events).len(),
    ensures
        tally_of(model_costs(events, model_key(model_firsts(events)[i]))) is Some,
{
    lemma_model_firsts_seen(events);
    let q = choose|q: int| 0 <= q < events.len() && #[trigger] events[q] == #[trigger] model_firsts(events)[i];
    assert(tally_fits(tally_of(model_costs(events, model_key(events[q])))));
}

/// When the events can be aggregated, the bucket of each listed task type
/// folds.
pub proof fn lemma_task_bucket_fits(events: Seq<CostEvent>, i: int)
    requires
        usage_fits(events),
        0 <= i < task_types(events).len(),
    ensures
        tally_of(task_costs(events, task_types(events)[i])) is Some,
{
    lemma_task_types_seen(events);
    let q = choose|q: int| 0 <= q < events.len() && (#[trigger] events[q]).task_type == #[trigger] task_types(events)[i];
    assert(tally_fits(tally_of(task_costs(events, events[q].task_type))));
}

/// Whether `t` is a tally whose token total fits.
pub open spec fn reportable(t: UsageTally) -> bool {
    t.input_tokens + t.output_tokens <= u64::MAX
}

/// The usage report of the events, or `None` when a count or a summed cost
/// overflows.
///
/// Folds every event into the session total plus per-model and
/// per-task-type breakdowns. Breakdown entries keep first-seen order, so the
/// result is deterministic.
fn usage_report(events: &Vec<CostEvent>) -> (r: Option<SessionUsageResponse>)
    ensures
        match r {
            Some(usage) => usage_fits(events@) && is_session_usage(usage, events@),
            None => !usage_fits(events@),
        },
{
    let ghost all = events@;
    let (total, firsts, model_tallies, kinds, kind_tallies) = match fold_events(events) {
        Some(folds) => folds,
        None => {
            return None;
        },
    };
    proof {
        assert(all.subrange(0, all.len() as int) =~= all);
    }
    if total.input_tokens > u64::MAX - total.output_tokens {
        return None;
    }

    let mut by_model: Vec<ModelUsage> = Vec::new();
    let mut k: usize = 0;
    while k < firsts.len()
        invariant
            all == events@,
            all.subrange(0, all.len() as int) == all,
            folded(all, all.len() as int, total, firsts@, model_tallies@, kinds@, kind_tallies@),
            k <= firsts.len(),
            by_model.len() == k,
            forall|m: int| 0 <= m < k ==> reportable(#[trigger] model_tallies@[m]),
            forall|m: int| 0 <= m < k ==> {
                let first = all[firsts@[m] as int];
                &&& (#[trigger] by_model@[m]).provider == first.provider
                &&& by_model@[m].model@ == first.model@
                &&& by_model@[m].request_count == model_tallies@[m].request_count
                &&& is_usage_of(by_model@[m].usage, tally_view(model_tallies@[m]))
            },
        decreases firsts.len() - k,
    {
        let tally = model_tallies[k];
        if tally.input_tokens > u64::MAX - tally.output_tokens {
            proof {
                let q = firsts@[k as int] as int;
                assert(tally_of(model_costs(all, model_key(all[q]))) == Some(tally_view(tally)));
            }
            return None;
        }
        let first = &events[firsts[k]];
        by_model.push(ModelUsage {
            provider: first.provider.duplicate(),
            model: first.model.clone(),
            request_count: tally.request_count,
            usage: tally.into_usage(),
        });
        k = k + 1;
    }

    let mut by_task_type: Vec<TaskTypeUsage> = Vec::new();
    let mut k: usize = 0;
    while k < kinds.len()
        invariant
            all == events@,
            all.subrange(0, all.len() as int) == all,
            folded(all, all.len() as int, total, firsts@, model_tallies@, kinds@, kind_tallies@),
            k <= kinds.len(),
            by_task_type.len() == k,
            forall|m: int| 0 <= m < k ==> reportable(#[trigger] kind_tallies@[m]),
            forall|m: int| 0 <= m < k ==> {
                &&& (#[trigger] by_task_type@[m]).task_type == kinds@[m]
                &&& by_task_type@[m].request_count == kind_tallies@[m].request_count
                &&& is_usage_of(by_task_type@[m].usage, tally_view(kind_tallies@[m]))
            },
        decreases kinds.len() - k,
    {
        let tally = kind_tallies[k];
        if tally.input_tokens > u64::MAX - tally.output_tokens {
            proof {
                let kind = kinds@[k as int];
                assert(tally_of(task_costs(all, kind)) == Some(tally_view(tally)));
                lemma_task_types_seen(all);
                assert(task_types(all)[k as int] == kind);
                let q = choose|q: int| 0 <= q < all.len() && (#[trigger] all[q]).task_type == task_types(all)[k as int];
                assert(!tally_fits(tally_of(task_costs(all, all[q].task_type))));
            }
            return None;
        }
        by_task_type.push(TaskTypeUsage { task_type: kinds[k], request_count: tally.request_count, usage: tally.into_usage() });
        k = k + 1;
    }
    let usage = SessionUsageResponse { total: total.into_usage(), by_model, by_task_type };
    proof {
        assert forall|q: int| 0 <= q < all.len() implies tally_fits(tally_of(model_costs(all, model_key(#[trigger] all[q])))) by {
            assert(holds_model(model_firsts(all), model_key(all[q])));
            let w = choose|w: int| 0 <= w < model_firsts(all).len() && model_key(#[trigger] model_firsts(all)[w]) == model_key(all[q]);
            assert(model_firsts(all)[w] == all[firsts@[w] as int]);
            assert(reportable(model_tallies@[w]));
        }
        assert forall|q: int| 0 <= q < all.len() implies tally_fits(tally_of(task_costs(all, (#[trigger] all[q]).task_type))) by {
            assert(kinds@.contains(all[q].task_type));
            let w = choose|w: int| 0 <= w < kinds@.len() && kinds@[w] == all[q].task_type;
            assert(reportable(kind_tallies@[w]));
        }
        assert forall|m: int| 0 <= m < usage.by_model.len() implies model_firsts(all)[m] == all[firsts@[m] as int] by {}
    }
    Some(usage)
}

/// Aggregates a session's usage from its cost events: the session total
/// plus per-model and per-task-type breakdowns, each in first-seen order.
///
/// Sealed events count as requests but contribute no tokens; unparsable
/// costs are skipped. Counting or summing past the integer or decimal range
/// would overflow, which panics, so such inputs are excluded.
pub fn aggregate(events: &Vec<CostEvent>) -> (usage: SessionUsageResponse)
    requires
        usage_fits(events@),
    ensures
        is_session_usage(usage, events@),
{
    match usage_report(events) {
        Some(usage) => usage,
        None => {
            proof {
                assert(false);
            }
            SessionUsageResponse {
                total: Usage { input_tokens: None, output_tokens: None, total_tokens: None, currency: None, estimated_cost: None },
                by_model: Vec::new(),
                by_task_type: Vec::new(),
            }
        },
    }
}

/// Aggregates a session's usage from its cost events, or `None` when a
/// count or a summed cost would overflow: it checks that the events can be
/// aggregated, then aggregates them.
pub fn try_aggregate(events: &Vec<CostEvent>) -> (r: Option<SessionUsageResponse>)
    ensures
        match r {
            Some(usage) => usage_fits(events@) && is_session_usage(usage, events@),
            None => !usage_fits(events@),
        },
{
    if usage_report(events).is_some() {
        Some(aggregate(events))
    } else {
        None
    }
}

} // verus!
