//! A mock provider for exercising the router without a network call.
//!
//! The mock offers a single canned model whose facts are fixed, answers a
//! completion with a fixed text, and streams either a canned event sequence
//! or a scripted completion rendered as the stream a streaming model would
//! produce.

use vstd::prelude::*;
use crate::streaming::{chunk_in_two, spec_chunk_in_two};
use crate::types::{ModelAuthRequirement, ModelCapabilities, ModelDescriptor, ModelReference, Provider};
use crate::usage::Usage;

verus! {

/// The facts of a mock provider and the single model it offers.
#[derive(Debug)]
pub struct MockProvider {
    /// The provider identity the mock answers as.
    pub id: Provider,
    /// The display name reported in the provider's descriptor.
    pub display_name: String,
    /// Whether the provider (and its model) is treated as local.
    pub local: bool,
    /// The name of the single model the provider offers.
    pub model: String,
    /// Whether the model advertises the streaming capability.
    pub streaming: bool,
    /// Whether streaming yields a single transport error instead of events.
    pub stream_error: bool,
}

/// The descriptor a mock stamps on `reference`: local models need no key,
/// remote ones an API key; tools, JSON output, a system prompt and memory
/// are supported, streaming as configured; an 8192-token window with a
/// 4096-token output limit.
pub open spec fn spec_mock_descriptor(reference: ModelReference, local: bool, streaming: bool) -> ModelDescriptor {
    ModelDescriptor {
        provider: reference.provider,
        model: reference.model,
        display_name: None,
        local,
        auth: if local { ModelAuthRequirement::Keyless } else { ModelAuthRequirement::ApiKey },
        capabilities: ModelCapabilities {
            streaming,
            tools: true,
            json_output: true,
            system_prompt: true,
            images: false,
            reasoning: false,
            memory: true,
        },
        max_context_tokens: 8_192,
        max_output_tokens: Some(4_096),
    }
}

impl MockProvider {
    /// A mock provider answering as `id`, offering one `model`, streaming
    /// without errors.
    pub fn new(id: Provider, display_name: String, local: bool, model: String) -> (p: MockProvider)
        ensures
            p.id == id,
            p.display_name == display_name,
            p.local == local,
            p.model == model,
            p.streaming,
            !p.stream_error,
    {
        MockProvider { id, display_name, local, model, streaming: true, stream_error: false }
    }

    /// Sets whether the model advertises the streaming capability.
    pub fn with_streaming(self, streaming: bool) -> (p: MockProvider)
        ensures
            p == (MockProvider { streaming, ..self }),
    {
        MockProvider { streaming, ..self }
    }

    /// Makes streaming yield a single transport error.
    pub fn with_stream_error(self, stream_error: bool) -> (p: MockProvider)
        ensures
            p == (MockProvider { stream_error, ..self }),
    {
        MockProvider { stream_error, ..self }
    }

    /// Builds the descriptor for `reference`, stamped with this mock's facts.
    pub fn descriptor_for(&self, reference: &ModelReference) -> (d: ModelDescriptor)
        ensures
            d == spec_mock_descriptor(*reference, self.local, self.streaming),
    {
        ModelDescriptor {
            provider: reference.provider.duplicate(),
            model: reference.model.clone(),
            display_name: None,
            local: self.local,
            auth: if self.local { ModelAuthRequirement::Keyless } else { ModelAuthRequirement::ApiKey },
            capabilities: ModelCapabilities {
                streaming: self.streaming,
                tools: true,
                json_output: true,
                system_prompt: true,
                images: false,
                reasoning: false,
                memory: true,
            },
            max_context_tokens: 8_192,
            max_output_tokens: Some(4_096),
        }
    }

    /// The reference of the single model this provider offers.
    pub fn reference(&self) -> (r: ModelReference)
        ensures
            r == (ModelReference { provider: self.id, model: self.model }),
    {
        ModelReference { provider: self.id.duplicate(), model: self.model.clone() }
    }
}

/// A tool call a completion requests.
#[derive(Debug)]
pub struct ToolCall {
    /// The call's identifier.
    pub call_id: String,
    /// The tool's name.
    pub name: String,
    /// The call's arguments, as JSON text.
    pub arguments: String,
}

/// A completed model response.
#[derive(Debug)]
pub struct CompletionResponse {
    /// The response text.
    pub content: String,
    /// The tool calls the model requested.
    pub tool_calls: Vec<ToolCall>,
    /// The usage the provider reported.
    pub usage: Usage,
}

/// One event of a streamed response.
#[derive(Debug)]
pub enum StreamEvent {
    /// A piece of reasoning text.
    ReasoningDelta {
        /// The text.
        delta: String,
    },
    /// A piece of response text.
    TextDelta {
        /// The text.
        delta: String,
    },
    /// A tool call began.
    ToolCallStarted {
        /// The call's identifier.
        call_id: String,
        /// The tool's name.
        name: String,
    },
    /// A tool call is requested, with its arguments.
    ToolCallRequested {
        /// The call's identifier.
        call_id: String,
        /// The tool's name.
        name: String,
        /// The call's arguments, as JSON text.
        arguments: String,
    },
    /// The usage of the response.
    Usage(Usage),
    /// The stream ended.
    Done,
}

/// The plain-value form of a stream event (usage aside, which is compared
/// as it is).
pub enum EventView {
    /// A piece of reasoning text.
    Reasoning(Seq<char>),
    /// A piece of response text.
    Text(Seq<char>),
    /// A tool call began: id and name.
    Started(Seq<char>, Seq<char>),
    /// A tool call is requested: id, name and arguments.
    Requested(Seq<char>, Seq<char>, Seq<char>),
    /// The usage of the response.
    Usage(Usage),
    /// The stream ended.
    Done,
}

/// The plain-value form of a stream event.
pub open spec fn event_view(e: StreamEvent) -> EventView {
    match e {
        StreamEvent::ReasoningDelta { delta } => EventView::Reasoning(delta@),
        StreamEvent::TextDelta { delta } => EventView::Text(delta@),
        StreamEvent::ToolCallStarted { call_id, name } => EventView::Started(call_id@, name@),
        StreamEvent::ToolCallRequested { call_id, name, arguments } => EventView::Requested(call_id@, name@, arguments@),
        StreamEvent::Usage(usage) => EventView::Usage(usage),
        StreamEvent::Done => EventView::Done,
    }
}

/// The plain-value forms of a list of events.
pub open spec fn events_view(events: Seq<StreamEvent>) -> Seq<EventView> {
    events.map_values(|e: StreamEvent| event_view(e))
}

/// The events each tool call becomes: a start, then the request.
pub open spec fn call_events(calls: Seq<ToolCall>) -> Seq<EventView>
    decreases calls.len(),
{
    if calls.len() == 0 {
        Seq::empty()
    } else {
        let c = calls.last();
        call_events(calls.drop_last()) + seq![
            EventView::Started(c.call_id@, c.name@),
            EventView::Requested(c.call_id@, c.name@, c.arguments@),
        ]
    }
}

/// The stream a scripted completion renders as: its text in two chunks, a
/// start and a request for each tool call, its usage, and the end.
pub open spec fn spec_render(content: Seq<char>, calls: Seq<ToolCall>, usage: Usage) -> Seq<EventView> {
    spec_chunk_in_two(content).map_values(|chunk: Seq<char>| EventView::Text(chunk))
        + call_events(calls)
        + seq![EventView::Usage(usage), EventView::Done]
}

/// Renders a scripted completion as the stream a streaming model would
/// produce.
///
/// The content is split into two chunks so incremental delivery can be
/// observed; each tool call becomes a `tool_call_started` then
/// `tool_call_requested` pair.
pub fn render_completion(response: CompletionResponse) -> (events: Vec<StreamEvent>)
    ensures
        events_view(events@) == spec_render(response.content@, response.tool_calls@, response.usage),
{
    let CompletionResponse { content, tool_calls, usage } = response;
    let ghost calls = tool_calls@;
    let mut events: Vec<StreamEvent> = Vec::new();
    let chunks = chunk_in_two(content.as_str());
    let ghost texts = spec_chunk_in_two(content@).map_values(|chunk: Seq<char>| EventView::Text(chunk));
    let mut i: usize = 0;
    while i < chunks.len()
        invariant
            i <= chunks.len(),
            chunks.deep_view() == spec_chunk_in_two(content@),
            texts == spec_chunk_in_two(content@).map_values(|chunk: Seq<char>| EventView::Text(chunk)),
            events_view(events@) == texts.subrange(0, i as int),
            events.len() == i,
        decreases chunks.len() - i,
    {
        let ghost before = events@;
        events.push(StreamEvent::TextDelta { delta: chunks[i].clone() });
        assert(events@ =~= before.push(events@[i as int]));
        assert(events_view(events@) =~= events_view(before).push(event_view(events@[i as int])));
        assert(chunks.deep_view()[i as int] == chunks[i as int]@);
        assert(texts.subrange(0, i + 1) =~= texts.subrange(0, i as int).push(texts[i as int]));
        i = i + 1;
    }
    assert(texts.subrange(0, texts.len() as int) =~= texts);
    let mut k: usize = 0;
    assert(call_events(calls.subrange(0, 0)) =~= Seq::<EventView>::empty());
    assert(texts + call_events(calls.subrange(0, 0)) =~= texts);
    while k < tool_calls.len()
        invariant
            k <= tool_calls.len(),
            calls == tool_calls@,
            events_view(events@) == texts + call_events(calls.subrange(0, k as int)),
        decreases tool_calls.len() - k,
    {
        let call = &tool_calls[k];
        let ghost before = events@;
        events.push(StreamEvent::ToolCallStarted { call_id: call.call_id.clone(), name: call.name.clone() });
        events.push(StreamEvent::ToolCallRequested {
            call_id: call.call_id.clone(),
            name: call.name.clone(),
            arguments: call.arguments.clone(),
        });
        proof {
            let c = calls[k as int];
            let prefix = calls.subrange(0, k + 1);
            assert(prefix.drop_last() =~= calls.subrange(0, k as int));
            assert(prefix.last() == c);
            assert(events@ =~= before.push(events@[before.len() as int]).push(events@[before.len() as int + 1]));
            assert(events_view(events@) =~= events_view(before).push(event_view(events@[before.len() as int])).push(
                event_view(events@[before.len() as int + 1]),
            ));
            assert(texts + call_events(prefix) =~= (texts + call_events(calls.subrange(0, k as int))) + seq![
                EventView::Started(c.call_id@, c.name@),
                EventView::Requested(c.call_id@, c.name@, c.arguments@),
            ]);
        }
        k = k + 1;
    }
    assert(calls.subrange(0, calls.len() as int) =~= calls);
    let ghost before = events@;
    events.push(StreamEvent::Usage(usage));
    events.push(StreamEvent::Done);
    proof {
        assert(events@ =~= before.push(events@[before.len() as int]).push(events@[before.len() as int + 1]));
        assert(events_view(events@) =~= events_view(before) + seq![EventView::Usage(usage), EventView::Done]);
    }
    events
}

/// The stream a mock model produces when nothing is scripted: a reasoning
/// delta, two text deltas that together read `mock response`, an empty
/// usage and the end.
pub open spec fn spec_canned_stream() -> Seq<EventView> {
    seq![
        EventView::Reasoning("thinking..."@),
        EventView::Text("mock "@),
        EventView::Text("response"@),
        EventView::Usage(Usage { input_tokens: None, output_tokens: None, total_tokens: None, currency: None, estimated_cost: None }),
        EventView::Done,
    ]
}

/// The default stream when nothing is scripted: a reasoning delta and two
/// text deltas that together read `mock response`, plus an empty usage and
/// the end.
pub fn canned_stream() -> (events: Vec<StreamEvent>)
    ensures
        events_view(events@) == spec_canned_stream(),
{
    let mut events: Vec<StreamEvent> = Vec::new();
    events.push(StreamEvent::ReasoningDelta { delta: String::from_str("thinking...") });
    events.push(StreamEvent::TextDelta { delta: String::from_str("mock ") });
    events.push(StreamEvent::TextDelta { delta: String::from_str("response") });
    events.push(StreamEvent::Usage(Usage { input_tokens: None, output_tokens: None, total_tokens: None, currency: None, estimated_cost: None }));
    events.push(StreamEvent::Done);
    assert(events_view(events@) =~= spec_canned_stream());
    events
}

/// The text a mock model answers a completion with when nothing is
/// scripted.
pub fn mock_response() -> (text: String)
    ensures
        text@ == "mock response"@,
{
    String::from_str("mock response")
}

} // verus!
