//! Text to SQL: the prompt, and the rules by which a request is served.
pub mod prompt;
pub mod request;
pub mod run;
pub mod settings;
pub mod sql;
pub mod wording;
