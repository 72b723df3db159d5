//! The part of an export document that extraction reads: for each
//! interaction block, the child nodes of its content cell.

use vstd::prelude::*;

verus! {

/// The selector by which the interaction blocks of a document are found.
pub const INTERACTION_BLOCK_SELECTOR: &'static str =
    "div.outer-cell.mdl-cell.mdl-cell--12-col.mdl-shadow--2dp";

/// The selector by which the content cell of an interaction block is found.
pub const CONTENT_CELL_SELECTOR: &'static str =
    "div.content-cell.mdl-cell.mdl-cell--6-col.mdl-typography--body-1";

/// The selector by which a button below an element is found.
pub const BUTTON_SELECTOR: &'static str = "button";

/// What kind of node a child of the content cell is.
#[derive(Clone, Copy, Debug, PartialEq, Eq, Structural)]
pub enum NodeKind {
    /// An element.
    Element,
    /// A bare text node.
    Text,
    /// Anything else, such as a comment.
    Other,
}

/// How the search for a button below an element ended.
#[derive(Clone, Copy, Debug, PartialEq, Eq, Structural)]
pub enum ButtonProbe {
    /// The element holds no button.
    Absent,
    /// The element holds a button.
    Present,
    /// The search itself failed.
    Failed,
}

/// One child node of a content cell.
#[derive(Clone, Debug, PartialEq, Eq)]
pub struct ContentNode {
    pub kind: NodeKind,
    /// The node's name; for an element, its tag name.
    pub name: String,
    /// The text of the node and of everything below it, where the node has
    /// any.
    pub text: Option<String>,
    /// For an element, how the search for a button below it ended.
    pub button: ButtonProbe,
}

/// A node as contracts see it.
pub struct ContentNodeView {
    pub kind: NodeKind,
    pub name: Seq<char>,
    pub text: Option<Seq<char>>,
    pub button: ButtonProbe,
}

impl View for ContentNode {
    type V = ContentNodeView;

    open spec fn view(&self) -> ContentNodeView {
        ContentNodeView {
            kind: self.kind,
            name: self.name@,
            text: match self.text {
                Some(text) => Some(text@),
                None => None,
            },
            button: self.button,
        }
    }
}

/// The views of a run of nodes.
pub open spec fn nodes_view(nodes: Seq<ContentNode>) -> Seq<ContentNodeView> {
    nodes.map_values(|n: ContentNode| n@)
}

/// One element of the document that has the signature of an interaction
/// block.
#[derive(Clone, Debug, PartialEq, Eq)]
pub enum InteractionBlock {
    /// The search for the content cell failed.
    LookupFailed,
    /// The block has no content cell.
    NoContent,
    /// The child nodes of the content cell, in document order.
    Content(Vec<ContentNode>),
}

/// A block as contracts see it.
pub enum InteractionBlockView {
    LookupFailed,
    NoContent,
    Content(Seq<ContentNodeView>),
}

impl View for InteractionBlock {
    type V = InteractionBlockView;

    open spec fn view(&self) -> InteractionBlockView {
        match self {
            InteractionBlock::LookupFailed => InteractionBlockView::LookupFailed,
            InteractionBlock::NoContent => InteractionBlockView::NoContent,
            InteractionBlock::Content(nodes) => InteractionBlockView::Content(nodes_view(nodes@)),
        }
    }
}

/// The views of a run of blocks.
pub open spec fn blocks_view(blocks: Seq<InteractionBlock>) -> Seq<InteractionBlockView> {
    blocks.map_values(|b: InteractionBlock| b@)
}

} // verus!
