//! Quote records and the built-in fallback quote.

use vstd::prelude::*;

verus! {

/// A list of quotes, as read from one quote file.
pub struct Quotes {
    pub quotes: Vec<Quote>,
}

/// One quote: its text (which may embed explicit line breaks), its author,
/// and an optional source and date.
#[derive(Clone)]
pub struct Quote {
    pub text: String,
    pub author: String,
    pub source: Option<String>,
    pub date: Option<String>,
}

/// An RGB colour triple used when the quote, source and author lines are drawn.
#[derive(Clone, Copy, PartialEq, Eq, Structural)]
pub struct Color {
    pub r: u8,
    pub g: u8,
    pub b: u8,
}

/// The quote shown when no quote file yields one.
pub fn default_quote() -> (q: Quote)
    ensures
        q.text@ == "The only way to do great work is to love what you do."@,
        q.author@ == "Steve Jobs"@,
        q.source is None,
        q.date is None,
{
    Quote {
        text: "The only way to do great work is to love what you do.".to_owned(),
        author: "Steve Jobs".to_owned(),
        source: None,
        date: None,
    }
}

} // verus!
