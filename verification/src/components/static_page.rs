//! A page with a fixed text.

use vstd::prelude::*;

verus! {

/// A page with a title and a text.
#[derive(Clone, Copy, Debug)]
pub struct StaticPageComponent {
    pub title: &'static str,
    pub content: &'static str,
}

impl StaticPageComponent {
    /// A page with this title and text.
    pub fn new(title: &'static str, content: &'static str) -> (p: StaticPageComponent)
        ensures
            p.title@ == title@,
            p.content@ == content@,
    {
        StaticPageComponent { title, content }
    }
}

} // verus!
