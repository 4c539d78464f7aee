//! Action protocol engine for a screen-driven phone automation agent.
//!
//! The library separates a model's streamed reasoning from its trailing
//! action call, parses that call into a typed record, plans the device
//! effect of a record, and sequences the steps of a task under a step budget.
pub mod text;
pub mod value;
pub mod record;
pub mod parser;
pub mod splitter;
pub mod dispatch;
pub mod i18n;
pub mod messages;
pub mod agent;
pub mod device;
pub mod cli;
