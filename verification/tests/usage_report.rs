use smista_router::types::{Provider, TaskIntent};
use smista_router::usage::{aggregate, try_aggregate, Amount, CostEvent, CostPayload, UsageTally};

fn event(task_type: TaskIntent, provider: Provider, model: &str, cost: Option<(u64, u64, Option<&str>)>) -> CostEvent {
    CostEvent {
        task_type,
        provider,
        model: model.to_string(),
        cost: cost.map(|(input_tokens, output_tokens, cost)| CostPayload {
            input_tokens,
            output_tokens,
            cost: cost.map(|c| c.to_string()),
        }),
    }
}

#[test]
fn aggregate_totals_tokens_and_costs_across_events() {
    let events = vec![
        event(TaskIntent::Chat, Provider::OpenAI, "mini", Some((100, 20, Some("0.0150")))),
        event(TaskIntent::Edit, Provider::Anthropic, "sonnet", Some((300, 50, Some("0.25")))),
        event(TaskIntent::Chat, Provider::OpenAI, "mini", Some((10, 5, Some("0.001")))),
    ];

    let usage = aggregate(&events);

    assert_eq!(usage.total.input_tokens, Some(410));
    assert_eq!(usage.total.output_tokens, Some(75));
    assert_eq!(usage.total.total_tokens, Some(485));
    assert_eq!(usage.total.currency.as_deref(), Some("USD"));
    // 0.0150 + 0.25 + 0.001 = 0.2660
    assert_eq!(usage.total.estimated_cost, Some(Amount { mantissa: 2660, scale: 4 }));

    assert_eq!(usage.by_model.len(), 2);
    assert!(matches!(usage.by_model[0].provider, Provider::OpenAI));
    assert_eq!(usage.by_model[0].model, "mini");
    assert_eq!(usage.by_model[0].request_count, 2);
    assert_eq!(usage.by_model[0].usage.input_tokens, Some(110));
    assert_eq!(usage.by_model[0].usage.estimated_cost, Some(Amount { mantissa: 160, scale: 4 }));
    assert!(matches!(usage.by_model[1].provider, Provider::Anthropic));
    assert_eq!(usage.by_model[1].request_count, 1);

    assert_eq!(usage.by_task_type.len(), 2);
    assert_eq!(usage.by_task_type[0].task_type, TaskIntent::Chat);
    assert_eq!(usage.by_task_type[0].request_count, 2);
    assert_eq!(usage.by_task_type[1].task_type, TaskIntent::Edit);
    assert_eq!(usage.by_task_type[1].usage.output_tokens, Some(50));
}

#[test]
fn sealed_events_count_requests_but_report_no_tokens() {
    let events = vec![event(TaskIntent::Chat, Provider::Ollama, "llama3", None), event(TaskIntent::Chat, Provider::Ollama, "llama3", None)];

    let usage = aggregate(&events);

    assert_eq!(usage.total.input_tokens, None);
    assert_eq!(usage.total.output_tokens, None);
    assert_eq!(usage.total.total_tokens, None);
    assert_eq!(usage.total.estimated_cost, None);
    assert_eq!(usage.total.currency, None);
    assert_eq!(usage.by_model[0].request_count, 2);
}

#[test]
fn unparsable_and_missing_costs_are_skipped() {
    let events = vec![
        event(TaskIntent::Plan, Provider::OpenAI, "mini", Some((1, 1, Some("not a number")))),
        event(TaskIntent::Plan, Provider::OpenAI, "mini", Some((1, 1, None))),
    ];

    let usage = aggregate(&events);

    assert_eq!(usage.total.input_tokens, Some(2));
    assert_eq!(usage.total.estimated_cost, None);
    assert_eq!(usage.total.currency, None);
}

#[test]
fn an_empty_session_has_an_empty_breakdown() {
    let usage = aggregate(&Vec::new());
    assert_eq!(usage.total.input_tokens, None);
    assert!(usage.by_model.is_empty());
    assert!(usage.by_task_type.is_empty());
}

#[test]
fn openai_compatible_instances_are_told_apart_by_name() {
    let events = vec![
        event(TaskIntent::Chat, Provider::OpenAICompatible("a".to_string()), "m", Some((1, 0, None))),
        event(TaskIntent::Chat, Provider::OpenAICompatible("b".to_string()), "m", Some((2, 0, None))),
    ];
    let usage = aggregate(&events);
    assert_eq!(usage.by_model.len(), 2);
    assert_eq!(usage.by_model[1].usage.input_tokens, Some(2));
}

#[test]
fn token_totals_past_the_integer_range_are_refused() {
    let events = vec![
        event(TaskIntent::Chat, Provider::OpenAI, "mini", Some((u64::MAX, 0, None))),
        event(TaskIntent::Chat, Provider::OpenAI, "mini", Some((1, 0, None))),
    ];
    assert!(try_aggregate(&events).is_none());

    let events = vec![event(TaskIntent::Chat, Provider::OpenAI, "mini", Some((u64::MAX, 1, None)))];
    assert!(try_aggregate(&events).is_none());
}

#[test]
fn decimal_costs_past_the_decimal_range_are_refused() {
    let max = "79228162514264337593543950335";
    let events = vec![
        event(TaskIntent::Chat, Provider::OpenAI, "mini", Some((0, 0, Some(max)))),
        event(TaskIntent::Chat, Provider::OpenAI, "mini", Some((0, 0, Some(max)))),
    ];
    assert!(try_aggregate(&events).is_none());
}

#[test]
fn a_tally_refuses_an_event_that_would_overflow_and_stays_unchanged() {
    let mut tally = UsageTally::new();
    assert!(tally.try_add(&Some(CostPayload { input_tokens: u64::MAX, output_tokens: 0, cost: None })));
    assert!(!tally.try_add(&Some(CostPayload { input_tokens: 1, output_tokens: 0, cost: None })));
    assert_eq!(tally.input_tokens, u64::MAX);
    assert_eq!(tally.request_count, 1);
}

#[test]
fn usage_aggregates_across_models_and_task_types() {
    let events = vec![
        event(TaskIntent::Edit, Provider::OpenAI, "thinking", Some((5_000, 1_000, Some("0.30")))),
        event(TaskIntent::Edit, Provider::OpenAI, "thinking", Some((3_000, 1_200, Some("0.01")))),
        event(TaskIntent::Plan, Provider::Anthropic, "sonnet", Some((4_000, 1_200, Some("0.18")))),
    ];

    let response = aggregate(&events);

    // Total folds every event.
    assert_eq!(response.total.input_tokens, Some(12_000));
    assert_eq!(response.total.output_tokens, Some(3_400));
    assert_eq!(response.total.total_tokens, Some(15_400));
    assert_eq!(response.total.estimated_cost, Some(Amount { mantissa: 49, scale: 2 }));
    assert_eq!(response.total.currency.as_deref(), Some("USD"));

    // Two cost events of the same model collapse into one entry.
    assert_eq!(response.by_model.len(), 2);
    let openai = &response.by_model[0];
    assert!(matches!(openai.provider, Provider::OpenAI));
    assert_eq!(openai.model, "thinking");
    assert_eq!(openai.request_count, 2);
    assert_eq!(openai.usage.input_tokens, Some(8_000));
    assert_eq!(openai.usage.total_tokens, Some(10_200));
    assert_eq!(openai.usage.estimated_cost, Some(Amount { mantissa: 31, scale: 2 }));
    assert!(matches!(response.by_model[1].provider, Provider::Anthropic));
    assert_eq!(response.by_model[1].request_count, 1);

    // Task-type breakdown groups by intent.
    assert_eq!(response.by_task_type.len(), 2);
    assert_eq!(response.by_task_type[0].task_type, TaskIntent::Edit);
    assert_eq!(response.by_task_type[0].request_count, 2);
    assert_eq!(response.by_task_type[1].task_type, TaskIntent::Plan);
    assert_eq!(response.by_task_type[1].usage.estimated_cost, Some(Amount { mantissa: 18, scale: 2 }));
}
