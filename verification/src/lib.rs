//! An interactive command-line shell: a quote-aware tokenizer, a command
//! dispatcher, and a directory-listing rendering engine, with the rendering
//! logic (permission strings, calendar conversion, colorization, layout)
//! verified against explicit specifications.
pub mod builtins;
pub mod calendar;
pub mod dispatch;
pub mod listing;
pub mod text;
pub mod tokenizer;
