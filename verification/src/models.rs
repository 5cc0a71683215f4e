//! News items as they are written out: the date as text.
use vstd::prelude::*;

verus! {

/// A news item whose date is written as text.
pub struct NewsItem {
    pub id: String,
    pub label: String,
    pub title: String,
    pub date: String,
    pub detail_url: String,
    pub is_page: bool,
    pub content: Option<Content>,
}

/// The content of an article page.
pub struct Content {
    pub text: String,
    pub attachment_urls: Vec<String>,
}

} // verus!
