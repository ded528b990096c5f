//! A Stream that arrived: what it carries, and where it came from.

use vstd::prelude::*;

verus! {

/// A Stream that arrived.
#[derive(Clone, Debug, PartialEq, Eq)]
pub struct Arrived {
    /// Where it came from.
    pub origin_uri: String,
    pub bytes: Vec<u8>,
}

/// A Stream that arrived, as text and bytes.
pub struct ArrivedView {
    pub origin_uri: Seq<char>,
    pub bytes: Seq<u8>,
}

impl View for Arrived {
    type V = ArrivedView;

    open spec fn view(&self) -> ArrivedView {
        ArrivedView { origin_uri: self.origin_uri@, bytes: self.bytes@ }
    }
}

impl DeepView for Arrived {
    type V = ArrivedView;

    open spec fn deep_view(&self) -> ArrivedView {
        self@
    }
}

impl Arrived {
    /// What `bytes` from `origin_uri` are.
    #[must_use]
    pub fn new(origin_uri: String, bytes: Vec<u8>) -> (arrived: Self)
        ensures
            arrived@ == (ArrivedView { origin_uri: origin_uri@, bytes: bytes@ }),
    {
        Arrived { origin_uri, bytes }
    }
}

} // verus!
