//! Interactions: one query and the response fragments that answer it.

use vstd::prelude::*;

verus! {

/// The tag shape from which a response fragment was taken.
#[derive(Clone, Copy, Debug, PartialEq, Eq, Structural)]
pub enum PartKind {
    /// Taken from a preformatted block.
    CodeBlock,
    /// Taken from a paragraph, a generic block, a list, a table or bare text.
    Prose,
}

/// One fragment of a response.
#[derive(Clone, Debug, PartialEq, Eq)]
pub struct ResponsePart {
    pub kind: PartKind,
    /// The fragment's text, trimmed.
    pub content: String,
}

/// A response fragment as contracts see it.
pub struct ResponsePartView {
    pub kind: PartKind,
    pub content: Seq<char>,
}

impl View for ResponsePart {
    type V = ResponsePartView;

    open spec fn view(&self) -> ResponsePartView {
        ResponsePartView { kind: self.kind, content: self.content@ }
    }
}

/// One exchange: the user's query, when it was made, and the response.
#[derive(Clone, Debug, PartialEq, Eq)]
pub struct Interaction {
    /// The prompt text; may be empty.
    pub query: String,
    /// The timestamp as displayed, or `UNKNOWN_TIME`.
    pub timestamp: String,
    /// The response fragments in document order.
    pub response_parts: Vec<ResponsePart>,
}

/// An interaction as contracts see it.
pub struct InteractionView {
    pub query: Seq<char>,
    pub timestamp: Seq<char>,
    pub response_parts: Seq<ResponsePartView>,
}

impl View for Interaction {
    type V = InteractionView;

    open spec fn view(&self) -> InteractionView {
        InteractionView {
            query: self.query@,
            timestamp: self.timestamp@,
            response_parts: parts_view(self.response_parts@),
        }
    }
}

/// The views of a run of response fragments.
pub open spec fn parts_view(parts: Seq<ResponsePart>) -> Seq<ResponsePartView> {
    parts.map_values(|p: ResponsePart| p@)
}

/// The views of a run of interactions.
pub open spec fn interactions_view(interactions: Seq<Interaction>) -> Seq<InteractionView> {
    interactions.map_values(|i: Interaction| i@)
}

impl InteractionView {
    /// An interaction says something: it has a query or at least one
    /// response fragment.
    pub open spec fn is_substantial(self) -> bool {
        self.query.len() > 0 || self.response_parts.len() > 0
    }

    /// Prose fragments are never empty.
    pub open spec fn prose_is_nonempty(self) -> bool {
        forall|j: int|
            0 <= j < self.response_parts.len() && self.response_parts[j].kind == PartKind::Prose
                ==> (#[trigger] self.response_parts[j]).content.len() > 0
    }
}

} // verus!
