//! A streaming HTML tokenizer with verified scanning rules, and the plain
//! response record that the browser shell hands to it.
pub mod grammar;
pub mod html_tokenizer;
pub mod http;
