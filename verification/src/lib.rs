//! A line tokenizer: it splits one line of text into classified tokens and
//! derives from them a per-character breakdown and a tally of categories.

pub mod breakdown;
pub mod charclass;
pub mod classify;
pub mod histogram;
pub mod scan;
pub mod scan_facts;
pub mod std_specs;
pub mod token;

pub use crate::breakdown::{breakdown_text, gran_breakdown};
pub use crate::classify::{classify_token, TextProfile};
pub use crate::histogram::{count_token_types, Histogram};
pub use crate::scan::tokenize;
pub use crate::token::{Token, TokenType};
