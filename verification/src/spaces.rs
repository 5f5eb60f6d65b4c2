//! What is known of the whitespace around the next node.
use vstd::prelude::*;

use crate::node::Ws;

verus! {

/// The whitespace around the next node, as far as it does not matter what it is.
#[derive(Clone, Copy, Debug, PartialEq, Eq, Structural)]
pub struct Spaces {
    /// Whether whitespace waits for a tag to decide on it.
    pub waits: bool,
    /// Whether the whitespace before the next text is dropped.
    pub skips: bool,
}

impl Spaces {
    /// After a tag.
    pub open spec fn tag(ws: Ws) -> Spaces {
        Spaces { waits: false, skips: ws.1 }
    }

    /// After a tag that drops the whitespace around it.
    pub open spec fn dropped() -> Spaces {
        Spaces { waits: false, skips: true }
    }

    /// At the start of a template that a partial stands for.
    pub open spec fn inside(self) -> Spaces {
        Spaces { waits: false, skips: self.skips }
    }

    /// After a template that a partial stands for, which ends with `self`.
    pub open spec fn outside(self, ws: Ws) -> Spaces {
        Spaces { waits: self.waits, skips: ws.1 }
    }

    /// Whether the whitespace `lws` before the text `lit` has to wait, as there is no text.
    pub open spec fn alone(self, lws: Seq<char>, lit: Seq<char>) -> bool {
        lws.len() > 0 && !self.skips && lit.len() == 0
    }

    /// After the text `lit` with the whitespace `lws` before and `rws` after it.
    pub open spec fn text(self, lws: Seq<char>, lit: Seq<char>, rws: Seq<char>) -> Spaces {
        Spaces {
            waits: self.waits || self.alone(lws, lit) || rws.len() > 0,
            skips: self.skips && lws.len() == 0,
        }
    }

    /// Whether the whitespace `lws` before the text `lit` has to wait, as there is no text.
    pub fn is_alone(&self, lws: &str, lit: &str) -> (r: bool)
        ensures
            r == self.alone(lws@, lit@),
    {
        !lws.is_empty() && !self.skips && lit.is_empty()
    }

    /// The whitespace after the text `lit` with the whitespace `lws` before and `rws` after it.
    pub fn after_text(&self, lws: &str, lit: &str, rws: &str) -> (r: Spaces)
        ensures
            r == self.text(lws@, lit@, rws@),
    {
        Spaces {
            waits: self.waits || self.is_alone(lws, lit) || !rws.is_empty(),
            skips: self.skips && lws.is_empty(),
        }
    }
}

} // verus!
