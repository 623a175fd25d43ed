//! A model gateway: it routes chat requests over configured channels, converts
//! between the OpenAI and Anthropic wire formats, and keeps a ledger of usage.
pub mod text;
pub mod numeral;
pub mod sorting;
pub mod ordered;
pub mod clock;
pub mod json;
pub mod channel;
pub mod config;
pub mod usage;
pub mod stats;
pub mod tables;
pub mod billing;
pub mod protocol;
pub mod convert;
pub mod hints;
pub mod prompt;
pub mod routing;
pub mod attempts;
pub mod stream;
pub mod gateway;
pub mod trial;
pub mod admin;
pub mod balance;
