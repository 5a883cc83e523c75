//! Deterministic, LLM-free routing for the smista router: task normalization,
//! routing-policy matching, model selection and context selection, plus the
//! small request guards the web layer applies.

pub mod estimator;
pub mod text;
pub mod fuzzy;
pub mod globs;
pub mod types;
pub mod order;
pub mod resolver;
pub mod signals;
pub mod normalizer;
pub mod policy_matcher;
pub mod model_selector;
pub mod context;
pub mod credentials;
pub mod streaming;
pub mod trace;
pub mod laws;
pub mod usage;
pub mod authorization;
pub mod listing;
pub mod mock;
pub mod sessions;
pub mod storage;
