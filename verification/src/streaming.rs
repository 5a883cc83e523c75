//! Streaming helpers: `Accept` negotiation and chunking of replayed text.
//!
//! The turn-driving endpoints answer with a buffered JSON body by default, or
//! with a `text/event-stream` when the client asks for one through `Accept`.

use vstd::prelude::*;
use crate::text::{chars_of, split, split_on, string_from};
use crate::usage::Usage;

verus! {

/// What `char::is_whitespace` answers for `c` (the Unicode `White_Space`
/// property).
pub uninterp spec fn char_is_whitespace(c: char) -> bool;

/// Calls `char::is_whitespace`; the contract names its answer.
#[verifier::external_body]
pub fn is_whitespace(c: char) -> (r: bool)
    ensures
        r == char_is_whitespace(c),
{
    c.is_whitespace()
}

/// The number of leading whitespace characters of `s`.
pub open spec fn leading_whitespace(s: Seq<char>) -> nat
    decreases s.len(),
{
    if s.len() > 0 && char_is_whitespace(s[0]) {
        1 + leading_whitespace(s.drop_first())
    } else {
        0
    }
}

/// The number of trailing whitespace characters of `s`.
pub open spec fn trailing_whitespace(s: Seq<char>) -> nat
    decreases s.len(),
{
    if s.len() > 0 && char_is_whitespace(s.last()) {
        1 + trailing_whitespace(s.drop_last())
    } else {
        0
    }
}

/// `s` without its leading and trailing whitespace (`str::trim`).
pub open spec fn spec_trim(s: Seq<char>) -> Seq<char> {
    let front = s.skip(leading_whitespace(s) as int);
    front.subrange(0, front.len() - trailing_whitespace(front))
}

proof fn lemma_leading_bound(s: Seq<char>)
    ensures
        leading_whitespace(s) <= s.len(),
    decreases s.len(),
{
    if s.len() > 0 && char_is_whitespace(s[0]) {
        lemma_leading_bound(s.drop_first());
    }
}

proof fn lemma_trailing_bound(s: Seq<char>)
    ensures
        trailing_whitespace(s) <= s.len(),
    decreases s.len(),
{
    if s.len() > 0 && char_is_whitespace(s.last()) {
        lemma_trailing_bound(s.drop_last());
    }
}

/// `s` without its leading and trailing whitespace (`str::trim`).
pub fn trim(s: &str) -> (r: String)
    ensures
        r@ == spec_trim(s@),
{
    let chars = chars_of(s);
    let mut from: usize = 0;
    proof {
        lemma_leading_bound(s@);
        assert(s@.skip(0) =~= s@);
    }
    while from < chars.len() && is_whitespace(chars[from])
        invariant
            from <= chars.len(),
            chars@ == s@,
            leading_whitespace(s@) <= chars.len(),
            leading_whitespace(s@) == from + leading_whitespace(s@.skip(from as int)),
        decreases chars.len() - from,
    {
        assert(s@.skip(from as int).drop_first() =~= s@.skip(from + 1));
        from = from + 1;
    }
    assert(leading_whitespace(s@.skip(from as int)) == 0);
    let ghost front = s@.skip(from as int);
    let mut to: usize = chars.len();
    proof {
        lemma_trailing_bound(front);
        assert(front.subrange(0, front.len() as int) =~= front);
    }
    while to > from && is_whitespace(chars[to - 1])
        invariant
            from <= to <= chars.len(),
            chars@ == s@,
            front == s@.skip(from as int),
            trailing_whitespace(front) == (chars.len() - to) + trailing_whitespace(front.subrange(0, to - from)),
        decreases to,
    {
        let ghost part = front.subrange(0, to - from);
        assert(part.last() == chars@[to - 1]);
        assert(part.drop_last() =~= front.subrange(0, to - 1 - from));
        to = to - 1;
    }
    assert(trailing_whitespace(front.subrange(0, to - from)) == 0);
    let r = string_from(&chars, from, to);
    assert(r@ =~= front.subrange(0, front.len() - trailing_whitespace(front)));
    r
}

/// Whether an `Accept` header value asks for the Server-Sent Events stream:
/// one of its comma-separated media ranges, without parameters and trimmed,
/// is exactly `text/event-stream`.
pub open spec fn accepts_event_stream(accept: Seq<char>) -> bool {
    exists|k: int| 0 <= k < split_on(accept, ',').len()
        && spec_trim(split_on(#[trigger] split_on(accept, ',')[k], ';')[0]) == "text/event-stream"@
}

/// Whether the client asked for the Server-Sent Events stream.
///
/// `accept` is the request's `Accept` header as text, `None` when it is absent
/// or not valid text. Returns `true` only when one of its media ranges is
/// exactly `text/event-stream`; media parameters (a `q` weight, say) are
/// ignored, and `application/json` or `*/*` yield `false`, so the buffered
/// JSON body is the default.
pub fn wants_event_stream(accept: Option<&str>) -> (r: bool)
    ensures
        r == (accept matches Some(a) && accepts_event_stream(a@)),
{
    let value = match accept {
        Some(a) => a,
        None => {
            return false;
        },
    };
    let ranges = split(value, ',');
    let mut k: usize = 0;
    while k < ranges.len()
        invariant
            k <= ranges.len(),
            ranges.deep_view() == split_on(value@, ','),
            accept == Some(value),
            forall|j: int| 0 <= j < k ==> spec_trim(split_on(#[trigger] split_on(value@, ',')[j], ';')[0]) != "text/event-stream"@,
        decreases ranges.len() - k,
    {
        let pieces = split(ranges[k].as_str(), ';');
        proof {
            crate::text::lemma_split_on_nonempty(ranges[k as int]@, ';');
            assert(ranges.deep_view()[k as int] == ranges[k as int]@);
            assert(pieces.deep_view()[0] == pieces[0]@);
        }
        let media = trim(pieces[0].as_str());
        if crate::text::str_eq(media.as_str(), "text/event-stream") {
            assert(split_on(value@, ',')[k as int] == ranges[k as int]@);
            assert(spec_trim(split_on(split_on(value@, ',')[k as int], ';')[0]) == "text/event-stream"@);
            assert(accepts_event_stream(value@));
            return true;
        }
        k = k + 1;
    }
    false
}

/// The chunks [`chunk_in_two`] splits `text` into: none for empty text, the
/// text itself when it is one character, and otherwise the two halves at the
/// middle character.
pub open spec fn spec_chunk_in_two(text: Seq<char>) -> Seq<Seq<char>> {
    if text.len() == 0 {
        Seq::empty()
    } else if text.len() < 2 {
        seq![text]
    } else {
        let mid = text.len() / 2;
        seq![text.subrange(0, mid as int), text.subrange(mid as int, text.len() as int)]
    }
}

/// Splits `text` into two character-balanced chunks; one chunk (or none) when
/// it is too short to split.
pub fn chunk_in_two(text: &str) -> (chunks: Vec<String>)
    ensures
        chunks.deep_view() == spec_chunk_in_two(text@),
{
    let chars = chars_of(text);
    let mut chunks: Vec<String> = Vec::new();
    if chars.len() == 0 {
        assert(chunks.deep_view() =~= spec_chunk_in_two(text@));
        return chunks;
    }
    if chars.len() < 2 {
        chunks.push(string_from(&chars, 0, chars.len()));
        assert(chars@.subrange(0, chars@.len() as int) =~= text@);
        assert(chunks.deep_view() =~= spec_chunk_in_two(text@));
        return chunks;
    }
    let mid = chars.len() / 2;
    chunks.push(string_from(&chars, 0, mid));
    chunks.push(string_from(&chars, mid, chars.len()));
    assert(chunks.deep_view() =~= spec_chunk_in_two(text@));
    chunks
}

/// A tool call a paused turn asks the client to run.
#[derive(Debug)]
pub struct ToolRequest {
    /// The call's identifier.
    pub call_id: String,
    /// The tool's name.
    pub name: String,
    /// The call's arguments, as JSON text.
    pub arguments: String,
    /// Whether the user must approve the call.
    pub requires_approval: bool,
}

/// How a buffered turn ended, as far as replaying it needs.
#[derive(Debug)]
pub enum ReplayOutcome {
    /// The turn completed with the assistant's text and its usage.
    Completed {
        /// The assistant's text.
        content: String,
        /// The usage of the turn.
        usage: Usage,
    },
    /// The turn paused for tool calls.
    AwaitingTool {
        /// The requested calls, in order.
        tool_requests: Vec<ToolRequest>,
    },
    /// Any other outcome, which replays no intermediate events.
    Other,
}

/// One event of a turn's event stream; `R` is the full response the
/// terminal event carries.
#[derive(Debug)]
pub enum TurnEvent<R> {
    /// A piece of assistant text.
    TextDelta {
        /// The text.
        delta: String,
    },
    /// The usage of the turn.
    Usage(Usage),
    /// A tool call began.
    ToolCallStarted {
        /// The call's identifier.
        call_id: String,
        /// The tool's name.
        name: String,
    },
    /// A tool call is requested from the client.
    ToolCallRequested {
        /// The call's identifier.
        call_id: String,
        /// The tool's name.
        name: String,
        /// The call's arguments, as JSON text.
        arguments: String,
        /// Whether the user must approve the call.
        requires_approval: bool,
    },
    /// The turn ended; carries the full response.
    TurnEnd(R),
}

/// Whether events `at` and `at + 1` announce and request the tool call
/// `request`.
pub open spec fn announces_call<R>(events: Seq<TurnEvent<R>>, at: int, request: ToolRequest) -> bool {
    &&& events[at] matches TurnEvent::ToolCallStarted { call_id, name }
        && call_id@ == request.call_id@ && name@ == request.name@
    &&& events[at + 1] matches TurnEvent::ToolCallRequested { call_id, name, arguments, requires_approval }
        && call_id@ == request.call_id@ && name@ == request.name@
        && arguments@ == request.arguments@ && requires_approval == request.requires_approval
}

/// Whether events `start + 2i` and `start + 2i + 1` announce and request the
/// tool call `requests[i]`, for every `i`.
pub open spec fn announces_tool_calls<R>(events: Seq<TurnEvent<R>>, start: int, requests: Seq<ToolRequest>) -> bool {
    forall|i: int| 0 <= i < requests.len() ==> announces_call(events, start + 2 * i, #[trigger] requests[i])
}

/// Replays a buffered turn as the events a streaming turn would have
/// produced: a completed turn replays its text (when there is any) and its
/// usage; a tool pause replays each requested call as a start and a request;
/// any other outcome replays nothing. Every replay ends with the terminal
/// event carrying the full response.
pub fn replay_events<R>(outcome: ReplayOutcome, response: R) -> (events: Vec<TurnEvent<R>>)
    ensures
        events.len() > 0,
        events@.last() == TurnEvent::TurnEnd(response),
        match outcome {
            ReplayOutcome::Completed { content, usage } => if content@.len() > 0 {
                &&& events.len() == 3
                &&& events@[0] matches TurnEvent::TextDelta { delta } && delta@ == content@
                &&& events@[1] == TurnEvent::<R>::Usage(usage)
            } else {
                &&& events.len() == 2
                &&& events@[0] == TurnEvent::<R>::Usage(usage)
            },
            ReplayOutcome::AwaitingTool { tool_requests } => {
                &&& events.len() == 2 * tool_requests.len() + 1
                &&& announces_tool_calls(events@, 0, tool_requests@)
            },
            ReplayOutcome::Other => events.len() == 1,
        },
{
    let mut events: Vec<TurnEvent<R>> = Vec::new();
    match outcome {
        ReplayOutcome::Completed { content, usage } => {
            let ghost text = content@;
            if content.as_str().unicode_len() > 0 {
                events.push(TurnEvent::TextDelta { delta: content });
                assert(events@[0] matches TurnEvent::TextDelta { delta } && delta@ == text);
            }
            events.push(TurnEvent::Usage(usage));
        },
        ReplayOutcome::AwaitingTool { tool_requests } => {
            let mut i: usize = 0;
            while i < tool_requests.len()
                invariant
                    i <= tool_requests.len(),
                    events.len() == 2 * i,
                    announces_tool_calls(events@, 0, tool_requests@.subrange(0, i as int)),
                decreases tool_requests.len() - i,
            {
                let request = &tool_requests[i];
                let ghost before = events@;
                events.push(TurnEvent::ToolCallStarted { call_id: request.call_id.clone(), name: request.name.clone() });
                events.push(TurnEvent::ToolCallRequested {
                    call_id: request.call_id.clone(),
                    name: request.name.clone(),
                    arguments: request.arguments.clone(),
                    requires_approval: request.requires_approval,
                });
                proof {
                    let done = tool_requests@.subrange(0, i + 1);
                    let prior = tool_requests@.subrange(0, i as int);
                    assert(announces_call(events@, 0 + 2 * i, tool_requests@[i as int]));
                    assert forall|k: int| 0 <= k < done.len() implies announces_call(events@, 0 + 2 * k, #[trigger] done[k]) by {
                        if k < i {
                            assert(done[k] == prior[k]);
                            assert(announces_call(before, 0 + 2 * k, prior[k]));
                            assert(events@[0 + 2 * k] == before[0 + 2 * k]);
                            assert(events@[0 + 2 * k + 1] == before[0 + 2 * k + 1]);
                        } else {
                            assert(done[k] == tool_requests@[i as int]);
                        }
                    }
                }
                i = i + 1;
            }
            assert(tool_requests@.subrange(0, tool_requests.len() as int) =~= tool_requests@);
        },
        ReplayOutcome::Other => {},
    }
    let ghost before = events@;
    events.push(TurnEvent::TurnEnd(response));
    proof {
        assert forall|k: int| 0 <= k < before.len() implies events@[k] == before[k] by {}
    }
    events
}

} // verus!
