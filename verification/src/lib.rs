pub mod address;
pub mod args;
pub mod calendar;
pub mod cli;
pub mod command_tree;
pub mod dispatch;
pub mod doctor;
pub mod error;
pub mod fetch;
pub mod fields;
pub mod filter;
pub mod funnel;
pub mod headers;
pub mod json;
pub mod json_path;
pub mod json_text;
pub mod numeral;
pub mod output;
pub mod pattern;
pub mod query;
pub mod redact;
pub mod request;
pub mod response;
pub mod retry;
pub mod rows;
pub mod text;
pub mod time_window;
pub mod values;
