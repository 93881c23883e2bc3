//! The kinds of page a build can render.
use vstd::prelude::*;

verus! {

/// A page kind that reads its source and renders itself.
pub trait Parse {
    fn parse(&self, path: &str);

    fn render(&self);
}

/// A page that lists other pages.
#[derive(Debug, Clone, Default)]
pub struct Index {}

impl Parse for Index {
    fn parse(&self, _path: &str) {
    }

    fn render(&self) {
    }
}

/// A page made from one document.
#[derive(Debug, Clone, Default)]
pub struct Single {
    pub path: String,
}

impl Single {
    /// Reads the document at `path`; a single page keeps nothing from it yet.
    pub fn parse(&self, _path: &str) {
    }
}

/// A page of either kind.
pub enum Context {
    Index(Index),
    Single(Single),
}

} // verus!
