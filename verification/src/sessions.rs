//! The decisions of the session endpoints, apart from storage.
//!
//! Reading a session hides an archived one exactly as it hides an unknown or
//! foreign one, and reports the serving provider and model only on the
//! assistant's messages. Updating a session applies a partial update: an
//! omitted field keeps its value, and every update refreshes `updated_at`.

use vstd::prelude::*;
use crate::context::opt_view;
use crate::types::{ApiErrorCode, MessageRole, Provider};

verus! {

/// The fields of a stored session an update can change, with timestamps in
/// milliseconds since the Unix epoch.
#[derive(Debug)]
pub struct SessionRow {
    /// The session's title, when it has one.
    pub title: Option<String>,
    /// When the session was archived, when it is.
    pub archived_at: Option<i64>,
    /// When the session was last written.
    pub updated_at: i64,
}

/// A partial update of a session: each field changes only when present.
#[derive(Debug)]
pub struct SessionUpdate {
    /// The new title.
    pub title: Option<String>,
    /// Whether the session should be archived (`true`) or restored (`false`).
    pub archived: Option<bool>,
}

/// Applies a partial update at time `now`: a present title replaces the
/// title, a present `archived` archives the session at `now` or restores it,
/// omitted fields keep their values, and `updated_at` becomes `now`.
pub fn apply_session_update(row: SessionRow, update: SessionUpdate, now: i64) -> (r: SessionRow)
    ensures
        opt_view(r.title) == match update.title {
            Some(t) => Some(t@),
            None => opt_view(row.title),
        },
        r.archived_at == match update.archived {
            Some(true) => Some(now),
            Some(false) => None,
            None => row.archived_at,
        },
        r.updated_at == now,
{
    let title = match update.title {
        Some(t) => Some(t),
        None => row.title,
    };
    let archived_at = match update.archived {
        Some(true) => Some(now),
        Some(false) => None,
        None => row.archived_at,
    };
    SessionRow { title, archived_at, updated_at: now }
}

/// A stored message of a session, with its plain-text content.
#[derive(Debug)]
pub struct StoredMessage {
    /// Who produced the message.
    pub role: MessageRole,
    /// The provider that served the turn.
    pub provider: Provider,
    /// The model that served the turn.
    pub model: String,
    /// The plain-text content.
    pub content: String,
}

/// A message as a session read returns it.
#[derive(Debug)]
pub struct SessionMessageDetail {
    /// Who produced the message.
    pub role: MessageRole,
    /// The content.
    pub content: String,
    /// The serving provider, on an assistant message only.
    pub provider: Option<Provider>,
    /// The serving model, on an assistant message only.
    pub model: Option<String>,
}

/// Whether `d` is the detail of the stored message `m`: the same role and
/// content, with the provider and model only when the assistant wrote it.
pub open spec fn is_detail_of(d: SessionMessageDetail, m: StoredMessage) -> bool {
    &&& d.role == m.role
    &&& d.content@ == m.content@
    &&& if m.role is Assistant {
        d.provider == Some(m.provider) && opt_view(d.model) == Some(m.model@)
    } else {
        d.provider is None && d.model is None
    }
}

/// The detail a session read returns for one stored message.
pub fn message_detail(m: &StoredMessage) -> (d: SessionMessageDetail)
    ensures
        is_detail_of(d, *m),
{
    let (provider, model) = match m.role {
        MessageRole::Assistant => (Some(m.provider.duplicate()), Some(m.model.clone())),
        _ => (None, None),
    };
    SessionMessageDetail { role: m.role, content: m.content.clone(), provider, model }
}

/// The messages a session read returns, or `SessionNotFound` for an
/// archived session, which is hidden exactly like an unknown or foreign one.
pub fn session_detail(archived: bool, messages: &Vec<StoredMessage>) -> (r: Result<Vec<SessionMessageDetail>, ApiErrorCode>)
    ensures
        archived <==> r is Err,
        archived ==> r == Err::<Vec<SessionMessageDetail>, ApiErrorCode>(ApiErrorCode::SessionNotFound),
        r matches Ok(details) ==> details.len() == messages.len()
            && forall|i: int| 0 <= i < messages.len() ==> is_detail_of(#[trigger] details@[i], messages@[i]),
{
    if archived {
        return Err(ApiErrorCode::SessionNotFound);
    }
    let mut details: Vec<SessionMessageDetail> = Vec::new();
    let mut i: usize = 0;
    while i < messages.len()
        invariant
            i <= messages.len(),
            details.len() == i,
            forall|j: int| 0 <= j < i ==> is_detail_of(#[trigger] details@[j], messages@[j]),
        decreases messages.len() - i,
    {
        details.push(message_detail(&messages[i]));
        i = i + 1;
    }
    Ok(details)
}

} // verus!
