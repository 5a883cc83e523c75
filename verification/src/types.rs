//! The routing vocabulary the resolver stages read: task intents, the
//! classification and routing policies, model references and descriptors, the
//! privacy policy and the routing decision.
//!
//! Each type holds, as plain values, exactly what the routing logic reads.

use vstd::prelude::*;
use crate::globs::{glob_set_matches, spec_glob_set_matches};

verus! {

/// The kind of work a turn asks for.
#[derive(Debug, Clone, Copy, PartialEq, Eq, Structural)]
pub enum TaskIntent {
    /// Conversation with no change to the workspace.
    Chat,
    /// Planning work before doing it.
    Plan,
    /// Changing code.
    Edit,
    /// Reviewing changes.
    Review,
}

/// The wire name of an intent, as it is displayed.
pub open spec fn intent_name(intent: TaskIntent) -> Seq<char> {
    match intent {
        TaskIntent::Chat => "chat"@,
        TaskIntent::Plan => "plan"@,
        TaskIntent::Edit => "edit"@,
        TaskIntent::Review => "review"@,
    }
}

impl TaskIntent {
    /// The intent's wire name, as it is displayed.
    pub fn name(&self) -> (name: &'static str)
        ensures
            name@ == intent_name(*self),
    {
        match self {
            TaskIntent::Chat => "chat",
            TaskIntent::Plan => "plan",
            TaskIntent::Edit => "edit",
            TaskIntent::Review => "review",
        }
    }
}

/// Where a classification's intent came from.
#[derive(Debug, Clone, Copy, PartialEq, Eq, Structural)]
pub enum IntentSource {
    /// An explicit command set the intent.
    Explicit,
    /// A classification rule (or the default intent) inferred it.
    Inferred,
}

/// How strongly the matched signals support an inferred intent.
#[derive(Debug, Clone, Copy, PartialEq, Eq, Structural)]
pub enum Confidence {
    /// A catch-all rule or the default intent.
    Low,
    /// One kind of signal matched, or the keyword needed a typo correction.
    Medium,
    /// Both a keyword and a context kind matched exactly.
    High,
}

/// The deterministic classification outcome: intent plus provenance.
#[derive(Debug)]
pub struct Classification {
    /// The classified intent.
    pub intent: TaskIntent,
    /// Whether the intent was explicit or inferred.
    pub source: IntentSource,
    /// Human-readable explanation of the outcome.
    pub reason: String,
    /// Index of the matched classification rule, if any.
    pub matched_rule: Option<usize>,
    /// Confidence of an inferred intent; `None` for an explicit one.
    pub confidence: Option<Confidence>,
}

/// One intent-classification rule.
#[derive(Debug)]
pub struct ClassificationRule {
    /// The intent the rule assigns.
    pub intent: TaskIntent,
    /// Rules are tried in ascending priority.
    pub priority: u32,
    /// When non-empty, one of these keywords must match a prompt token.
    pub keywords: Vec<String>,
    /// When non-empty, one of these context kinds must be available.
    pub requires_any_context: Vec<String>,
}

/// The classification rules and the fallback intent.
#[derive(Debug)]
pub struct ClassificationConfig {
    /// The intent used when no rule matches.
    pub default_intent: TaskIntent,
    /// The rules, in configuration order.
    pub rules: Vec<ClassificationRule>,
}

/// A skill the client attached: a named instruction body.
#[derive(Debug)]
pub struct Skill {
    /// The skill's name.
    pub name: String,
    /// A short description of what the skill does.
    pub description: String,
    /// The skill's instruction body.
    pub content: String,
}

impl Skill {
    /// A field-by-field copy.
    pub fn duplicate(&self) -> (r: Skill)
        ensures
            r == *self,
    {
        Skill {
            name: self.name.clone(),
            description: self.description.clone(),
            content: self.content.clone(),
        }
    }
}

/// A model provider: a canonical one, or a named OpenAI-compatible instance.
#[derive(Debug)]
pub enum Provider {
    /// Anthropic.
    Anthropic,
    /// Google Gemini.
    Gemini,
    /// OpenAI.
    OpenAI,
    /// A local Ollama server.
    Ollama,
    /// A named OpenAI-compatible endpoint.
    OpenAICompatible(String),
}

/// The identity of a provider: its variant, and the instance name of an
/// OpenAI-compatible one.
pub open spec fn provider_id(p: Provider) -> (int, Seq<char>) {
    match p {
        Provider::Anthropic => (0, Seq::<char>::empty()),
        Provider::Gemini => (4, Seq::<char>::empty()),
        Provider::OpenAI => (1, Seq::<char>::empty()),
        Provider::Ollama => (2, Seq::<char>::empty()),
        Provider::OpenAICompatible(name) => (3, name@),
    }
}

/// Whether two providers are the same provider.
pub open spec fn same_provider(a: Provider, b: Provider) -> bool {
    provider_id(a) == provider_id(b)
}

/// The displayed name of a provider: its canonical name, or the instance name
/// of an OpenAI-compatible endpoint.
pub open spec fn provider_name(p: Provider) -> Seq<char> {
    match p {
        Provider::Anthropic => "anthropic"@,
        Provider::Gemini => "gemini"@,
        Provider::OpenAI => "openai"@,
        Provider::Ollama => "ollama"@,
        Provider::OpenAICompatible(name) => name@,
    }
}

/// The provider named by a canonical provider name, if it is one.
pub open spec fn canonical_provider(name: Seq<char>) -> Option<Provider> {
    if name == "anthropic"@ {
        Some(Provider::Anthropic)
    } else if name == "gemini"@ {
        Some(Provider::Gemini)
    } else if name == "openai"@ {
        Some(Provider::OpenAI)
    } else if name == "ollama"@ {
        Some(Provider::Ollama)
    } else {
        None
    }
}

impl Provider {
    /// A copy of the provider.
    pub fn duplicate(&self) -> (r: Provider)
        ensures
            r == *self,
    {
        match self {
            Provider::Anthropic => Provider::Anthropic,
            Provider::Gemini => Provider::Gemini,
            Provider::OpenAI => Provider::OpenAI,
            Provider::Ollama => Provider::Ollama,
            Provider::OpenAICompatible(name) => Provider::OpenAICompatible(name.clone()),
        }
    }

    /// The provider's variant tag, as in its identity.
    fn tag(&self) -> (t: u8)
        ensures
            t as int == provider_id(*self).0,
    {
        match self {
            Provider::Anthropic => 0,
            Provider::Gemini => 4,
            Provider::OpenAI => 1,
            Provider::Ollama => 2,
            Provider::OpenAICompatible(_) => 3,
        }
    }

    /// Whether two providers are the same.
    pub fn same(&self, other: &Provider) -> (r: bool)
        ensures
            r == same_provider(*self, *other),
    {
        let a = self.tag();
        let b = other.tag();
        if a != b {
            return false;
        }
        match self {
            Provider::OpenAICompatible(x) => match other {
                Provider::OpenAICompatible(y) => {
                    let r = *x == *y;
                    assert(provider_id(*self).1 == x@);
                    assert(provider_id(*other).1 == y@);
                    r
                },
                _ => false,
            },
            _ => {
                assert(provider_id(*self).1 =~= provider_id(*other).1);
                true
            },
        }
    }

    /// The provider's displayed name.
    pub fn name(&self) -> (r: String)
        ensures
            r@ == provider_name(*self),
    {
        match self {
            Provider::Anthropic => String::from_str("anthropic"),
            Provider::Gemini => String::from_str("gemini"),
            Provider::OpenAI => String::from_str("openai"),
            Provider::Ollama => String::from_str("ollama"),
            Provider::OpenAICompatible(name) => name.clone(),
        }
    }

    /// Parses a canonical provider name (`anthropic`, `gemini`, `openai`,
    /// `ollama`).
    pub fn from_canonical(name: &str) -> (r: Option<Provider>)
        ensures
            r == canonical_provider(name@),
    {
        if crate::text::str_eq(name, "anthropic") {
            Some(Provider::Anthropic)
        } else if crate::text::str_eq(name, "gemini") {
            Some(Provider::Gemini)
        } else if crate::text::str_eq(name, "openai") {
            Some(Provider::OpenAI)
        } else if crate::text::str_eq(name, "ollama") {
            Some(Provider::Ollama)
        } else {
            None
        }
    }
}

/// A reference to one model of one provider.
#[derive(Debug)]
pub struct ModelReference {
    /// The provider serving the model.
    pub provider: Provider,
    /// The provider's name for the model.
    pub model: String,
}

/// The identity of a model reference.
pub open spec fn reference_id(r: ModelReference) -> ((int, Seq<char>), Seq<char>) {
    (provider_id(r.provider), r.model@)
}

/// Whether two references name the same model.
pub open spec fn same_reference(a: ModelReference, b: ModelReference) -> bool {
    reference_id(a) == reference_id(b)
}

/// The displayed form of a model reference: `provider/model`.
pub open spec fn reference_text(r: ModelReference) -> Seq<char> {
    provider_name(r.provider) + "/"@ + r.model@
}

impl ModelReference {
    /// A copy of the reference.
    pub fn duplicate(&self) -> (r: ModelReference)
        ensures
            r == *self,
    {
        ModelReference { provider: self.provider.duplicate(), model: self.model.clone() }
    }

    /// Whether two references name the same model.
    pub fn same(&self, other: &ModelReference) -> (r: bool)
        ensures
            r == same_reference(*self, *other),
    {
        self.provider.same(&other.provider) && self.model == other.model
    }

    /// The displayed form, `provider/model`.
    pub fn text(&self) -> (r: String)
        ensures
            r@ == reference_text(*self),
    {
        let mut r = self.provider.name();
        r.append("/");
        r.append(self.model.as_str());
        r
    }
}

/// Whether a model needs an API key to be called.
#[derive(Debug, Clone, Copy, PartialEq, Eq, Structural)]
pub enum ModelAuthRequirement {
    /// The model is callable without credentials.
    Keyless,
    /// The model needs an API key for its provider.
    ApiKey,
}

/// What a model can do.
#[derive(Debug, Clone, Copy, PartialEq, Eq, Structural, Default)]
pub struct ModelCapabilities {
    /// Streams its output.
    pub streaming: bool,
    /// Calls tools.
    pub tools: bool,
    /// Produces structured JSON output.
    pub json_output: bool,
    /// Accepts a system prompt.
    pub system_prompt: bool,
    /// Accepts images.
    pub images: bool,
    /// Exposes reasoning.
    pub reasoning: bool,
    /// Uses memory.
    pub memory: bool,
}

/// What a turn needs of the model serving it.
#[derive(Debug, Clone, Copy, PartialEq, Eq, Structural, Default)]
pub struct RoutingRequirements {
    /// Needs streaming.
    pub streaming: bool,
    /// Needs tool calls.
    pub tools: bool,
    /// Needs JSON output.
    pub json_output: bool,
    /// Needs a system prompt.
    pub system_prompt: bool,
    /// Needs image input.
    pub images: bool,
    /// Needs reasoning.
    pub reasoning: bool,
    /// Needs memory.
    pub memory: bool,
    /// The context size the model's window must accommodate, when known.
    pub estimated_tokens: Option<u64>,
}

/// The router's facts about one model.
#[derive(Debug)]
pub struct ModelDescriptor {
    /// The provider serving the model.
    pub provider: Provider,
    /// The provider's name for the model.
    pub model: String,
    /// A human-friendly name, if any.
    pub display_name: Option<String>,
    /// Whether the model runs locally.
    pub local: bool,
    /// Whether the model needs an API key.
    pub auth: ModelAuthRequirement,
    /// What the model can do.
    pub capabilities: ModelCapabilities,
    /// The model's context window, in tokens.
    pub max_context_tokens: u32,
    /// The model's output limit, in tokens, when bounded.
    pub max_output_tokens: Option<u32>,
}

/// The reference a descriptor describes.
pub open spec fn descriptor_reference(d: ModelDescriptor) -> ((int, Seq<char>), Seq<char>) {
    (provider_id(d.provider), d.model@)
}

/// Whether the capabilities cover everything the requirements ask for.
pub open spec fn capabilities_cover(c: ModelCapabilities, r: RoutingRequirements) -> bool {
    &&& r.streaming ==> c.streaming
    &&& r.tools ==> c.tools
    &&& r.json_output ==> c.json_output
    &&& r.system_prompt ==> c.system_prompt
    &&& r.images ==> c.images
    &&& r.reasoning ==> c.reasoning
    &&& r.memory ==> c.memory
}

/// Whether a model can serve the requirements: it has every required
/// capability and its window holds the estimated context.
pub open spec fn spec_can_handle(d: ModelDescriptor, r: RoutingRequirements) -> bool {
    &&& capabilities_cover(d.capabilities, r)
    &&& match r.estimated_tokens {
        Some(tokens) => tokens <= d.max_context_tokens,
        None => true,
    }
}

impl ModelDescriptor {
    /// A field-by-field copy.
    pub fn duplicate(&self) -> (r: ModelDescriptor)
        ensures
            r == *self,
    {
        ModelDescriptor {
            provider: self.provider.duplicate(),
            model: self.model.clone(),
            display_name: match &self.display_name {
                Some(name) => Some(name.clone()),
                None => None,
            },
            local: self.local,
            auth: self.auth,
            capabilities: self.capabilities,
            max_context_tokens: self.max_context_tokens,
            max_output_tokens: self.max_output_tokens,
        }
    }

    /// The reference this descriptor describes.
    pub fn reference(&self) -> (r: ModelReference)
        ensures
            r.provider == self.provider,
            r.model == self.model,
    {
        ModelReference { provider: self.provider.duplicate(), model: self.model.clone() }
    }

    /// Whether the model needs an API key.
    pub fn requires_api_key(&self) -> (r: bool)
        ensures
            r == (self.auth == ModelAuthRequirement::ApiKey),
    {
        match self.auth {
            ModelAuthRequirement::ApiKey => true,
            ModelAuthRequirement::Keyless => false,
        }
    }

    /// Whether the model can serve `requirements`.
    pub fn can_handle(&self, requirements: &RoutingRequirements) -> (r: bool)
        ensures
            r == spec_can_handle(*self, *requirements),
    {
        let c = self.capabilities;
        if (requirements.streaming && !c.streaming) || (requirements.tools && !c.tools)
            || (requirements.json_output && !c.json_output) || (requirements.system_prompt
            && !c.system_prompt) || (requirements.images && !c.images) || (requirements.reasoning
            && !c.reasoning) || (requirements.memory && !c.memory) {
            return false;
        }
        match requirements.estimated_tokens {
            Some(tokens) => tokens <= self.max_context_tokens as u64,
            None => true,
        }
    }
}

/// How specific a routing rule's conditions are; more specific rules win
/// priority ties.
#[derive(Debug, Clone, Copy, PartialEq, Eq, Structural)]
pub enum Specificity {
    /// No intent and no path condition.
    Default,
    /// An intent condition only.
    Intent,
    /// A path condition only.
    Path,
    /// Both an intent and a path condition.
    PathIntent,
}

/// The rank of a specificity: higher is more specific.
pub open spec fn specificity_rank(s: Specificity) -> nat {
    match s {
        Specificity::Default => 0,
        Specificity::Intent => 1,
        Specificity::Path => 2,
        Specificity::PathIntent => 3,
    }
}

/// One routing rule: conditions, the model they route to, and its gates.
#[derive(Debug)]
pub struct RoutingRule {
    /// The rule's name, reported in the routing decision.
    pub name: String,
    /// Rules are evaluated in ascending priority.
    pub priority: u32,
    /// The intent the task must have, when set.
    pub intent: Option<TaskIntent>,
    /// A skill that must be among the task's relevant skills, when set.
    pub skill: Option<String>,
    /// Path globs, one of which must match a touched file, when non-empty.
    pub paths: Vec<String>,
    /// The model the rule routes to.
    pub model: ModelReference,
    /// The ordered fallback chain for the model.
    pub fallbacks: Vec<ModelReference>,
    /// Whether only local models may serve the rule's turns.
    pub local_only: bool,
    /// Capabilities every serving model must have, when set.
    pub requires_capabilities: Option<ModelCapabilities>,
    /// Tool permissions the rule's turns require.
    pub required_permissions: ToolsConfig,
}

/// How a tool may be used.
#[derive(Debug, Clone, Copy, PartialEq, Eq, Structural)]
pub enum PermissionMode {
    /// The tool runs without asking.
    Allow,
    /// The user is asked before the tool runs.
    Ask,
    /// The tool never runs.
    Deny,
}

/// The permission one tool is given.
#[derive(Debug)]
pub struct ToolPermission {
    /// The tool's name, for example `file_write`.
    pub tool: String,
    /// How the tool may be used.
    pub mode: PermissionMode,
}

/// Tool permissions, one entry per tool.
#[derive(Debug)]
pub struct ToolsConfig {
    /// The permission of each tool.
    pub permissions: Vec<ToolPermission>,
}

/// The plain-value form of a tool permission.
pub open spec fn permission_view(p: ToolPermission) -> (Seq<char>, PermissionMode) {
    (p.tool@, p.mode)
}

/// The permissions of a configuration, as (tool, mode) pairs in order.
pub open spec fn permissions_view(config: ToolsConfig) -> Seq<(Seq<char>, PermissionMode)> {
    config.permissions@.map_values(|p: ToolPermission| permission_view(p))
}

/// The mode of the first entry for `tool` among `permissions`, if any.
pub open spec fn spec_mode_for(permissions: Seq<(Seq<char>, PermissionMode)>, tool: Seq<char>) -> Option<PermissionMode>
    decreases permissions.len(),
{
    if permissions.len() == 0 {
        None
    } else if permissions[0].0 == tool {
        Some(permissions[0].1)
    } else {
        spec_mode_for(permissions.drop_first(), tool)
    }
}

impl ToolsConfig {
    /// A configuration that grants no tool anything.
    pub fn empty() -> (config: ToolsConfig)
        ensures
            permissions_view(config) == Seq::<(Seq<char>, PermissionMode)>::empty(),
    {
        let config = ToolsConfig { permissions: Vec::new() };
        assert(permissions_view(config) =~= Seq::<(Seq<char>, PermissionMode)>::empty());
        config
    }

    /// A copy of the configuration.
    pub fn duplicate(&self) -> (config: ToolsConfig)
        ensures
            permissions_view(config) == permissions_view(*self),
    {
        let mut permissions: Vec<ToolPermission> = Vec::new();
        let mut i: usize = 0;
        while i < self.permissions.len()
            invariant
                i <= self.permissions.len(),
                permissions.len() == i,
                permissions@.map_values(|p: ToolPermission| permission_view(p))
                    == permissions_view(*self).subrange(0, i as int),
            decreases self.permissions.len() - i,
        {
            let entry = &self.permissions[i];
            let ghost before = permissions@;
            let copy = ToolPermission { tool: entry.tool.clone(), mode: entry.mode };
            assert(permission_view(copy) == permissions_view(*self)[i as int]);
            permissions.push(copy);
            assert(permissions@ =~= before.push(copy));
            assert(permissions@.map_values(|p: ToolPermission| permission_view(p))
                =~= permissions_view(*self).subrange(0, i + 1));
            i = i + 1;
        }
        let config = ToolsConfig { permissions };
        assert(permissions_view(*self).subrange(0, self.permissions.len() as int) =~= permissions_view(*self));
        config
    }

    /// The mode the configuration gives `tool`, if it names it.
    pub fn mode_for(&self, tool: &str) -> (mode: Option<PermissionMode>)
        ensures
            mode == spec_mode_for(permissions_view(*self), tool@),
    {
        let ghost all = permissions_view(*self);
        let mut i: usize = 0;
        assert(all.skip(0) =~= all);
        while i < self.permissions.len()
            invariant
                i <= self.permissions.len(),
                all == permissions_view(*self),
                spec_mode_for(all, tool@) == spec_mode_for(all.skip(i as int), tool@),
            decreases self.permissions.len() - i,
        {
            assert(all.skip(i as int)[0] == permission_view(self.permissions@[i as int]));
            if crate::text::str_eq(self.permissions[i].tool.as_str(), tool) {
                return Some(self.permissions[i].mode);
            }
            assert(all.skip(i as int).drop_first() =~= all.skip(i + 1));
            i = i + 1;
        }
        None
    }
}

/// The specificity of a rule, from which of its intent and path conditions
/// are present.
pub open spec fn rule_specificity(rule: RoutingRule) -> Specificity {
    if rule.paths.len() > 0 && rule.intent is Some {
        Specificity::PathIntent
    } else if rule.paths.len() > 0 {
        Specificity::Path
    } else if rule.intent is Some {
        Specificity::Intent
    } else {
        Specificity::Default
    }
}

impl RoutingRule {
    /// The rule's specificity.
    pub fn specificity(&self) -> (s: Specificity)
        ensures
            s == rule_specificity(*self),
    {
        let has_paths = self.paths.len() > 0;
        match self.intent {
            Some(_) => if has_paths { Specificity::PathIntent } else { Specificity::Intent },
            None => if has_paths { Specificity::Path } else { Specificity::Default },
        }
    }
}

/// The route used when no rule matches.
#[derive(Debug)]
pub struct DefaultRoute {
    /// The default model.
    pub model: ModelReference,
    /// Its ordered fallback chain.
    pub fallbacks: Vec<ModelReference>,
}

/// The user's routing rules and default route.
#[derive(Debug)]
pub struct RoutingPolicy {
    /// The default route, if the policy declares one.
    pub default: Option<DefaultRoute>,
    /// The rules, in configuration order.
    pub rules: Vec<RoutingRule>,
}

/// Privacy constraints on the context sent to models.
#[derive(Debug)]
pub struct PrivacyPolicy {
    /// Globs of paths whose content must never reach a remote provider.
    pub restricted_paths: Vec<String>,
}

/// Whether content at `path` is restricted from remote providers: one of the
/// policy's globs matches it.
pub open spec fn spec_restricted_for_remote(policy: PrivacyPolicy, path: Seq<char>) -> bool {
    spec_glob_set_matches(policy.restricted_paths.deep_view(), path)
}

impl PrivacyPolicy {
    /// Whether content at `path` is restricted from remote providers.
    pub fn is_restricted_for_remote(&self, path: &str) -> (r: bool)
        ensures
            r == spec_restricted_for_remote(*self, path@),
    {
        glob_set_matches(&self.restricted_paths, path)
    }
}

/// Who produced a conversation message.
#[derive(Debug, Clone, Copy, PartialEq, Eq, Structural)]
pub enum MessageRole {
    /// The system preamble.
    System,
    /// The user.
    User,
    /// The model.
    Assistant,
    /// A tool result.
    Tool,
}

/// The debug rendering of a role (its variant name).
pub open spec fn role_name(role: MessageRole) -> Seq<char> {
    match role {
        MessageRole::System => "System"@,
        MessageRole::User => "User"@,
        MessageRole::Assistant => "Assistant"@,
        MessageRole::Tool => "Tool"@,
    }
}

impl MessageRole {
    /// The role's debug rendering.
    pub fn name(&self) -> (r: &'static str)
        ensures
            r@ == role_name(*self),
    {
        match self {
            MessageRole::System => "System",
            MessageRole::User => "User",
            MessageRole::Assistant => "Assistant",
            MessageRole::Tool => "Tool",
        }
    }
}

/// The record of how a turn was routed.
#[derive(Debug)]
pub struct RoutingDecision {
    /// The intent that drove routing.
    pub intent: TaskIntent,
    /// The provider of the chosen model.
    pub provider: Provider,
    /// The chosen model.
    pub model: String,
    /// The name of the matched rule, if any.
    pub matched_rule: Option<String>,
    /// Whether a fallback, rather than the route's primary, was chosen.
    pub fallback_used: bool,
    /// Whether an explicit model override was used.
    pub override_used: bool,
    /// Why the route was chosen.
    pub reason: String,
}

/// The stable error codes clients match on.
#[derive(Debug, Clone, Copy, PartialEq, Eq, Structural)]
pub enum ApiErrorCode {
    /// The required context does not fit the model's window.
    ContextWindowExceeded,
    /// No usable model could serve the route.
    FallbackExhausted,
    /// An explicit override is not allowed on restricted content.
    OverrideNotAllowed,
    /// No rule matched and there is no default route.
    NoRoute,
    /// A credential was passed as a query parameter.
    CredentialsInQuery,
    /// The request carries no `Authorization` header.
    MissingCredentials,
    /// The session token is malformed, unknown, or not a bearer token.
    InvalidToken,
    /// The session token is past its expiry.
    TokenExpired,
    /// The session token has been signed out.
    TokenRevoked,
    /// The API key is invalid.
    InvalidApiKey,
    /// The session id is not a valid id.
    InvalidSessionId,
    /// The session does not exist, is archived, or is not the caller's.
    SessionNotFound,
    /// The request failed for a server-side reason.
    InternalError,
}

/// The wire form of an error code.
pub open spec fn error_code_name(code: ApiErrorCode) -> Seq<char> {
    match code {
        ApiErrorCode::ContextWindowExceeded => "context_window_exceeded"@,
        ApiErrorCode::FallbackExhausted => "fallback_exhausted"@,
        ApiErrorCode::OverrideNotAllowed => "override_not_allowed"@,
        ApiErrorCode::NoRoute => "no_route"@,
        ApiErrorCode::CredentialsInQuery => "credentials_in_query"@,
        ApiErrorCode::MissingCredentials => "missing_credentials"@,
        ApiErrorCode::InvalidToken => "invalid_token"@,
        ApiErrorCode::TokenExpired => "token_expired"@,
        ApiErrorCode::TokenRevoked => "token_revoked"@,
        ApiErrorCode::InvalidApiKey => "invalid_api_key"@,
        ApiErrorCode::InvalidSessionId => "invalid_session_id"@,
        ApiErrorCode::SessionNotFound => "session_not_found"@,
        ApiErrorCode::InternalError => "internal_error"@,
    }
}

impl ApiErrorCode {
    /// The code as clients read it on the wire, in snake case.
    pub fn as_str(&self) -> (name: &'static str)
        ensures
            name@ == error_code_name(*self),
    {
        match self {
            ApiErrorCode::ContextWindowExceeded => "context_window_exceeded",
            ApiErrorCode::FallbackExhausted => "fallback_exhausted",
            ApiErrorCode::OverrideNotAllowed => "override_not_allowed",
            ApiErrorCode::NoRoute => "no_route",
            ApiErrorCode::CredentialsInQuery => "credentials_in_query",
            ApiErrorCode::MissingCredentials => "missing_credentials",
            ApiErrorCode::InvalidToken => "invalid_token",
            ApiErrorCode::TokenExpired => "token_expired",
            ApiErrorCode::TokenRevoked => "token_revoked",
            ApiErrorCode::InvalidApiKey => "invalid_api_key",
            ApiErrorCode::InvalidSessionId => "invalid_session_id",
            ApiErrorCode::SessionNotFound => "session_not_found",
            ApiErrorCode::InternalError => "internal_error",
        }
    }
}

} // verus!
