//! Verified core of a coding-agent runtime: conversation history and
//! call/output pairing, session task bookkeeping, tool configuration and
//! allowlist filtering, sub-agent definitions, custom-command templates,
//! exec-output formatting for the model, and rollout persistence rules.

pub mod chars;
pub mod ids;
pub mod template;
pub mod exec_format;
pub mod items;
pub mod slash;
pub mod tools;
pub mod yaml;
pub mod json;
pub mod agents;
pub mod session;
pub mod turn;
pub mod rollout;
pub mod commands;
pub mod dispatch;
pub mod submission;
