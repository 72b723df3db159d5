//! The extractor: from the interaction blocks of a document to
//! interactions.

use crate::document::{blocks_view, nodes_view, ButtonProbe, ContentNode, ContentNodeView};
use crate::document::{InteractionBlock, InteractionBlockView, NodeKind};
use crate::interaction::{interactions_view, parts_view, Interaction, InteractionView};
use crate::interaction::{PartKind, ResponsePart, ResponsePartView};
use crate::text::{contains_text, has_substring, strip_prefix_text, trimmed, unicode_lowercase};
use crate::text::without_prefix;
use crate::timestamp::{is_timestamp, is_timestamp_text, UNKNOWN_TIME};
use vstd::prelude::*;
use vstd::slice::slice_subrange;
use vstd::std_specs::iter::IteratorSpec;
use vstd::string::StringExecFns;

verus! {

/// The label that the export puts in front of a prompt.
pub const PROMPT_LABEL: &'static str = "Prompted ";

/// The phrase, in lower case, by which the export's suggestion boxes are
/// known.
pub const BOILERPLATE_PHRASE: &'static str = "explore related topics";

/// Why a block could not be processed.
#[derive(Clone, Copy, Debug, PartialEq, Eq, Structural)]
pub enum QueryError {
    /// The search for the content cell failed.
    ContentCell,
    /// The search for a button below an element of the response failed.
    Button,
}

// ---------------------------------------------------------------------------
// Comparing names
// ---------------------------------------------------------------------------

/// Whether two texts hold the same characters.
pub fn same_text(left: &str, right: &str) -> (same: bool)
    ensures
        same == (left@ == right@),
{
    let mut rest = right.chars();
    for c in it: left.chars()
        invariant
            it.seq() == left@,
            it.index() <= right@.len(),
            left@.take(it.index() as int) == right@.take(it.index() as int),
            rest.remaining() == right@.skip(it.index() as int),
            rest.obeys_prophetic_iter_laws(),
    {
        match rest.next() {
            Some(d) => {
                if c != d {
                    return false;
                }
            },
            None => {
                return false;
            },
        }
    }
    assert(left@.take(left@.len() as int) == left@);
    match rest.next() {
        Some(_) => false,
        None => {
            true
        },
    }
}

/// Whether `name` is `br`, in upper or lower case or mixed.
pub open spec fn is_line_break_name(name: Seq<char>) -> bool {
    &&& name.len() == 2
    &&& (name[0] == 'B' || name[0] == 'b')
    &&& (name[1] == 'R' || name[1] == 'r')
}

/// Whether a node of this name is a line break.
pub fn is_line_break(name: &str) -> (found: bool)
    ensures
        found == is_line_break_name(name@),
{
    let mut letters = name.chars();
    let first = letters.next();
    let second = letters.next();
    let third = letters.next();
    match (first, second, third) {
        (Some(b), Some(r), None) => (b == 'B' || b == 'b') && (r == 'R' || r == 'r'),
        _ => false,
    }
}

// ---------------------------------------------------------------------------
// The timestamp marker
// ---------------------------------------------------------------------------

/// Whether a timestamp marker stands at position `at`: a line break whose
/// next sibling is a text node that, trimmed, holds a timestamp.
pub open spec fn marker_at(nodes: Seq<ContentNodeView>, at: int) -> bool {
    &&& 0 <= at
    &&& at + 1 < nodes.len()
    &&& is_line_break_name(nodes[at].name)
    &&& nodes[at + 1].kind == NodeKind::Text
    &&& nodes[at + 1].text is Some
    &&& is_timestamp_text(trimmed(nodes[at + 1].text->0))
}

/// Whether the first timestamp marker stands at position `at`.
pub open spec fn first_marker_at(nodes: Seq<ContentNodeView>, at: int) -> bool {
    &&& marker_at(nodes, at)
    &&& forall|earlier: int| 0 <= earlier < at ==> !marker_at(nodes, earlier)
}

/// The position of the first timestamp marker, if there is any.
pub open spec fn marker(nodes: Seq<ContentNodeView>) -> Option<int> {
    if exists|at: int| marker_at(nodes, at) {
        Some(choose|at: int| first_marker_at(nodes, at))
    } else {
        None
    }
}

/// The first marker is the marker: there is one first marker at most.
pub proof fn lemma_first_marker_is_marker(nodes: Seq<ContentNodeView>, at: int)
    requires
        first_marker_at(nodes, at),
    ensures
        marker(nodes) == Some(at),
{
    let chosen = choose|at: int| first_marker_at(nodes, at);
    assert(chosen == at);
}

/// Where a marker stands, a first one does.
proof fn lemma_some_marker_is_first(nodes: Seq<ContentNodeView>, at: int)
    requires
        marker_at(nodes, at),
    ensures
        exists|first: int| first_marker_at(nodes, first),
    decreases at,
{
    if exists|earlier: int| 0 <= earlier < at && marker_at(nodes, earlier) {
        let earlier = choose|earlier: int| 0 <= earlier < at && marker_at(nodes, earlier);
        lemma_some_marker_is_first(nodes, earlier);
    } else {
        assert(first_marker_at(nodes, at));
    }
}

/// The marker is the first one: a marker stands there and none in front of
/// it; and where there is no marker, none stands anywhere.
pub proof fn lemma_marker_is_first(nodes: Seq<ContentNodeView>)
    ensures
        match marker(nodes) {
            Some(at) => first_marker_at(nodes, at),
            None => forall|at: int| !marker_at(nodes, at),
        },
{
    if exists|at: int| marker_at(nodes, at) {
        let at = choose|at: int| marker_at(nodes, at);
        lemma_some_marker_is_first(nodes, at);
    }
}

/// Whether a timestamp marker stands at position `at`.
pub fn is_marker(nodes: &[ContentNode], at: usize) -> (found: bool)
    ensures
        found == marker_at(nodes_view(nodes@), at as int),
{
    if at >= nodes.len() || at + 1 >= nodes.len() {
        return false;
    }
    if !is_line_break(nodes[at].name.as_str()) {
        return false;
    }
    let next = &nodes[at + 1];
    match next.kind {
        NodeKind::Text => match &next.text {
            Some(text) => is_timestamp(text.as_str().trim()),
            None => false,
        },
        _ => false,
    }
}

/// Finds the first timestamp marker.
pub fn find_timestamp_marker(nodes: &[ContentNode]) -> (found: Option<usize>)
    ensures
        match found {
            Some(at) => marker(nodes_view(nodes@)) == Some(at as int),
            None => marker(nodes_view(nodes@)) is None,
        },
        found matches Some(at) ==> first_marker_at(nodes_view(nodes@), at as int),
{
    let mut at: usize = 0;
    while at < nodes.len()
        invariant
            at <= nodes.len(),
            forall|earlier: int| 0 <= earlier < at ==> !marker_at(nodes_view(nodes@), earlier),
        decreases nodes.len() - at,
    {
        if is_marker(nodes, at) {
            proof {
                lemma_first_marker_is_marker(nodes_view(nodes@), at as int);
            }
            return Some(at);
        }
        at = at + 1;
    }
    None
}

// ---------------------------------------------------------------------------
// The query
// ---------------------------------------------------------------------------

/// The text of a node; empty where the node has none.
pub open spec fn text_or_empty(node: ContentNodeView) -> Seq<char> {
    match node.text {
        Some(text) => text,
        None => Seq::empty(),
    }
}

/// The texts of `nodes`, joined without anything between them.
pub open spec fn joined_text(nodes: Seq<ContentNodeView>) -> Seq<char> {
    nodes.map_values(|n: ContentNodeView| text_or_empty(n)).flatten()
}

/// Joins the texts of the nodes.
pub fn join_text(nodes: &[ContentNode]) -> (joined: String)
    ensures
        joined@ == joined_text(nodes_view(nodes@)),
{
    let ghost texts = nodes_view(nodes@).map_values(|n: ContentNodeView| text_or_empty(n));
    let mut joined = String::new();
    let mut at: usize = 0;
    while at < nodes.len()
        invariant
            at <= nodes.len(),
            texts == nodes_view(nodes@).map_values(|n: ContentNodeView| text_or_empty(n)),
            joined@ == texts.take(at as int).flatten(),
        decreases nodes.len() - at,
    {
        match &nodes[at].text {
            Some(text) => {
                joined.append(text.as_str());
            },
            None => {},
        }
        proof {
            assert(texts.take(at + 1) =~= texts.take(at as int).push(texts[at as int]));
            texts.take(at as int).lemma_flatten_push(texts[at as int]);
        }
        at = at + 1;
    }
    assert(texts.take(at as int) == texts);
    joined
}

/// `prompt` without the label in front of it, if it has one.
pub open spec fn without_label(prompt: Seq<char>) -> Seq<char> {
    match without_prefix(prompt, PROMPT_LABEL@) {
        Some(rest) => rest,
        None => prompt,
    }
}

/// Takes the label off a prompt that starts with it.
pub fn strip_label(prompt: &str) -> (query: String)
    ensures
        query@ == without_label(prompt@),
{
    match strip_prefix_text(prompt, PROMPT_LABEL) {
        Some(rest) => String::from_str(rest),
        None => String::from_str(prompt),
    }
}

/// The query in the texts of the nodes in front of the marker: joined,
/// trimmed, and without the prompt label.
pub open spec fn query_text(nodes: Seq<ContentNodeView>) -> Seq<char> {
    without_label(trimmed(joined_text(nodes)))
}

// ---------------------------------------------------------------------------
// Response fragments
// ---------------------------------------------------------------------------

/// Whether an element of this tag name, in lower case, is a preformatted
/// block.
pub open spec fn is_preformatted_tag(tag: Seq<char>) -> bool {
    tag == "pre"@
}

/// Whether an element of this tag name, in lower case, is a paragraph, a
/// generic block, a list or a table.
pub open spec fn is_block_tag(tag: Seq<char>) -> bool {
    ||| tag == "p"@
    ||| tag == "div"@
    ||| tag == "ul"@
    ||| tag == "ol"@
    ||| tag == "table"@
}

/// The fragment that an element contributes, given its tag name in lower
/// case, whether its text holds the boilerplate phrase, how the search for
/// a button below it ended, and its trimmed text. The button is looked for
/// only where the text is no boilerplate.
pub open spec fn element_fragment(
    tag: Seq<char>,
    boilerplate: bool,
    button: ButtonProbe,
    content: Seq<char>,
) -> Result<Option<ResponsePartView>, QueryError> {
    if boilerplate {
        Ok(None)
    } else {
        match button {
            ButtonProbe::Failed => Err(QueryError::Button),
            ButtonProbe::Present => Ok(None),
            ButtonProbe::Absent => if is_preformatted_tag(tag) {
                Ok(Some(ResponsePartView { kind: PartKind::CodeBlock, content }))
            } else if is_block_tag(tag) && content.len() > 0 {
                Ok(Some(ResponsePartView { kind: PartKind::Prose, content }))
            } else {
                Ok(None)
            },
        }
    }
}

/// The fragment that a bare text node with this trimmed text contributes.
pub open spec fn text_fragment(content: Seq<char>) -> Option<ResponsePartView> {
    if content.len() > 0 {
        Some(ResponsePartView { kind: PartKind::Prose, content })
    } else {
        None
    }
}

/// Whether `text` holds the phrase that marks a suggestion box, in any
/// case.
pub open spec fn is_boilerplate(text: Seq<char>) -> bool {
    has_substring(unicode_lowercase(text), BOILERPLATE_PHRASE@)
}

/// The fragment that a node of the response region contributes, if any.
pub open spec fn node_fragment(node: ContentNodeView) -> Result<
    Option<ResponsePartView>,
    QueryError,
> {
    match node.kind {
        NodeKind::Element => match node.text {
            Some(text) => element_fragment(
                unicode_lowercase(node.name),
                is_boilerplate(text),
                node.button,
                trimmed(text),
            ),
            None => Ok(None),
        },
        NodeKind::Text => match node.text {
            Some(text) => Ok(text_fragment(trimmed(text))),
            None => Ok(None),
        },
        NodeKind::Other => Ok(None),
    }
}

/// The fragments of a run of nodes, in order; the failure of the first node
/// that fails.
pub open spec fn region_fragments(region: Seq<ContentNodeView>) -> Result<
    Seq<ResponsePartView>,
    QueryError,
>
    decreases region.len(),
{
    if region.len() == 0 {
        Ok(Seq::empty())
    } else {
        match region_fragments(region.drop_last()) {
            Err(failure) => Err(failure),
            Ok(fragments) => match node_fragment(region.last()) {
                Err(failure) => Err(failure),
                Ok(Some(fragment)) => Ok(fragments.push(fragment)),
                Ok(None) => Ok(fragments),
            },
        }
    }
}

/// Once a node fails, the nodes after it change nothing.
pub proof fn lemma_failure_ends_walk(region: Seq<ContentNodeView>, upto: int)
    requires
        0 <= upto <= region.len(),
        region_fragments(region.take(upto)) is Err,
    ensures
        region_fragments(region) == region_fragments(region.take(upto)),
    decreases region.len() - upto,
{
    if upto == region.len() {
        assert(region.take(upto) == region);
    } else {
        assert(region.take(upto + 1).drop_last() == region.take(upto));
        lemma_failure_ends_walk(region, upto + 1);
    }
}

/// What an optional fragment is to contracts.
pub open spec fn fragment_view(part: Option<ResponsePart>) -> Option<ResponsePartView> {
    match part {
        Some(p) => Some(p@),
        None => None,
    }
}

/// What the outcome for one node is to contracts.
pub open spec fn outcome_view(outcome: Result<Option<ResponsePart>, QueryError>) -> Result<
    Option<ResponsePartView>,
    QueryError,
> {
    match outcome {
        Ok(part) => Ok(fragment_view(part)),
        Err(failure) => Err(failure),
    }
}

/// Decides what an element contributes, from its tag name in lower case,
/// whether its text holds the boilerplate phrase, how the search for a
/// button ended, and its trimmed text.
pub fn element_part(tag: &str, boilerplate: bool, button: ButtonProbe, content: &str) -> (outcome:
    Result<Option<ResponsePart>, QueryError>)
    ensures
        outcome_view(outcome) == element_fragment(tag@, boilerplate, button, content@),
{
    if boilerplate {
        return Ok(None);
    }
    match button {
        ButtonProbe::Failed => Err(QueryError::Button),
        ButtonProbe::Present => Ok(None),
        ButtonProbe::Absent => {
            if same_text(tag, "pre") {
                Ok(Some(ResponsePart { kind: PartKind::CodeBlock, content: String::from_str(content) }))
            } else if (same_text(tag, "p") || same_text(tag, "div") || same_text(tag, "ul")
                || same_text(tag, "ol") || same_text(tag, "table")) && !content.is_empty() {
                Ok(Some(ResponsePart { kind: PartKind::Prose, content: String::from_str(content) }))
            } else {
                Ok(None)
            }
        },
    }
}

/// Decides what a bare text node with this trimmed text contributes.
pub fn text_part(content: &str) -> (part: Option<ResponsePart>)
    ensures
        fragment_view(part) == text_fragment(content@),
{
    if content.is_empty() {
        None
    } else {
        Some(ResponsePart { kind: PartKind::Prose, content: String::from_str(content) })
    }
}

/// The fragment that a node of the response region contributes, if any.
pub fn response_part(node: &ContentNode) -> (outcome: Result<Option<ResponsePart>, QueryError>)
    ensures
        outcome_view(outcome) == node_fragment(node@),
{
    match node.kind {
        NodeKind::Element => match &node.text {
            Some(text) => {
                let tag = node.name.as_str().to_lowercase();
                let lowered = text.as_str().to_lowercase();
                let boilerplate = contains_text(lowered.as_str(), BOILERPLATE_PHRASE);
                element_part(tag.as_str(), boilerplate, node.button, text.as_str().trim())
            },
            None => Ok(None),
        },
        NodeKind::Text => match &node.text {
            Some(text) => Ok(text_part(text.as_str().trim())),
            None => Ok(None),
        },
        NodeKind::Other => Ok(None),
    }
}

/// What the outcome of a walk is to contracts.
pub open spec fn walk_view(outcome: Result<Vec<ResponsePart>, QueryError>) -> Result<
    Seq<ResponsePartView>,
    QueryError,
> {
    match outcome {
        Ok(parts) => Ok(parts_view(parts@)),
        Err(failure) => Err(failure),
    }
}

/// Walks the nodes and collects their fragments in order; fails where a
/// node fails.
pub fn collect_response_parts(nodes: &[ContentNode]) -> (outcome: Result<
    Vec<ResponsePart>,
    QueryError,
>)
    ensures
        walk_view(outcome) == region_fragments(nodes_view(nodes@)),
{
    let ghost region = nodes_view(nodes@);
    let mut parts: Vec<ResponsePart> = Vec::new();
    let mut at: usize = 0;
    assert(region.take(0) =~= Seq::<ContentNodeView>::empty());
    assert(parts_view(parts@) =~= Seq::<ResponsePartView>::empty());
    while at < nodes.len()
        invariant
            at <= nodes.len(),
            region == nodes_view(nodes@),
            region_fragments(region.take(at as int)) == Ok::<Seq<ResponsePartView>, QueryError>(
                parts_view(parts@),
            ),
        decreases nodes.len() - at,
    {
        let outcome = response_part(&nodes[at]);
        proof {
            assert(region.take(at + 1).drop_last() == region.take(at as int));
            assert(region.take(at + 1).last() == nodes@[at as int]@);
        }
        match outcome {
            Err(failure) => {
                proof {
                    lemma_failure_ends_walk(region, at + 1);
                }
                return Err(failure);
            },
            Ok(Some(part)) => {
                let ghost before = parts_view(parts@);
                parts.push(part);
                assert(parts_view(parts@) =~= before.push(part@));
            },
            Ok(None) => {},
        }
        at = at + 1;
    }
    assert(region.take(at as int) == region);
    Ok(parts)
}

// ---------------------------------------------------------------------------
// Interactions
// ---------------------------------------------------------------------------

/// The interaction made of a query, a timestamp and fragments; none where
/// there is neither a query nor a fragment.
pub open spec fn assembled(
    query: Seq<char>,
    timestamp: Seq<char>,
    fragments: Seq<ResponsePartView>,
) -> Option<InteractionView> {
    if query.len() == 0 && fragments.len() == 0 {
        None
    } else {
        Some(InteractionView { query, timestamp, response_parts: fragments })
    }
}

/// Puts an interaction together, unless it would say nothing.
pub fn assemble(query: String, timestamp: String, parts: Vec<ResponsePart>) -> (interaction: Option<
    Interaction,
>)
    ensures
        interaction_view(interaction) == assembled(query@, timestamp@, parts_view(parts@)),
{
    if query.as_str().is_empty() && parts.is_empty() {
        None
    } else {
        Some(Interaction { query, timestamp, response_parts: parts })
    }
}

/// What an optional interaction is to contracts.
pub open spec fn interaction_view(interaction: Option<Interaction>) -> Option<InteractionView> {
    match interaction {
        Some(i) => Some(i@),
        None => None,
    }
}

/// What the outcome for one block is to contracts.
pub open spec fn block_outcome_view(outcome: Result<Option<Interaction>, QueryError>) -> Result<
    Option<InteractionView>,
    QueryError,
> {
    match outcome {
        Ok(interaction) => Ok(interaction_view(interaction)),
        Err(failure) => Err(failure),
    }
}

/// The interaction read from the nodes that hold the prompt, the trimmed
/// text of the timestamp, and the nodes of the response region.
pub open spec fn interaction_of(
    prompt: Seq<ContentNodeView>,
    timestamp: Seq<char>,
    response: Seq<ContentNodeView>,
) -> Result<Option<InteractionView>, QueryError> {
    match region_fragments(response) {
        Err(failure) => Err(failure),
        Ok(fragments) => Ok(assembled(query_text(prompt), timestamp, fragments)),
    }
}

/// Reads an interaction from the nodes that hold the prompt, the trimmed
/// text of the timestamp, and the nodes of the response region.
pub fn read_interaction(prompt: &[ContentNode], timestamp: &str, response: &[ContentNode]) -> (outcome:
    Result<Option<Interaction>, QueryError>)
    ensures
        block_outcome_view(outcome) == interaction_of(
            nodes_view(prompt@),
            timestamp@,
            nodes_view(response@),
        ),
{
    let joined = join_text(prompt);
    let query = strip_label(joined.as_str().trim());
    let parts = collect_response_parts(response)?;
    Ok(assemble(query, String::from_str(timestamp), parts))
}

/// The interaction in a content cell whose marker stands at `marker`: the
/// prompt is in the nodes in front of the marker, the timestamp is the
/// trimmed text of the node after it, and the response region is made of
/// the siblings after that node. Without a marker, or with one that leaves
/// no room for the node after it, all nodes hold the prompt, the timestamp
/// is `UNKNOWN_TIME` and there is no response region.
pub open spec fn cell_interaction(nodes: Seq<ContentNodeView>, marker: Option<int>) -> Result<
    Option<InteractionView>,
    QueryError,
> {
    match marker {
        Some(at) if 0 <= at && at + 1 < nodes.len() => interaction_of(
            nodes.take(at),
            trimmed(text_or_empty(nodes[at + 1])),
            nodes.skip(at + 2),
        ),
        _ => interaction_of(nodes, UNKNOWN_TIME@, Seq::empty()),
    }
}

/// The position of a marker as contracts see it.
pub open spec fn marker_view(marker: Option<usize>) -> Option<int> {
    match marker {
        Some(at) => Some(at as int),
        None => None,
    }
}

/// Builds the interaction of a content cell from the position of its
/// marker.
pub fn split_at_marker(nodes: &[ContentNode], marker: Option<usize>) -> (outcome: Result<
    Option<Interaction>,
    QueryError,
>)
    ensures
        block_outcome_view(outcome) == cell_interaction(nodes_view(nodes@), marker_view(marker)),
{
    let length = nodes.len();
    match marker {
        Some(at) if at < length && at + 1 < length => {
            let prompt = slice_subrange(nodes, 0, at);
            let response = slice_subrange(nodes, at + 2, length);
            let text = match &nodes[at + 1].text {
                Some(text) => text.as_str(),
                None => "",
            };
            proof {
                let view = nodes_view(nodes@);
                reveal_strlit("");
                assert(text@ =~= text_or_empty(view[at + 1]));
                assert(nodes_view(prompt@) =~= view.take(at as int));
                assert(nodes_view(response@) =~= view.skip(at + 2));
            }
            read_interaction(prompt, text.trim(), response)
        },
        _ => {
            let response = slice_subrange(nodes, 0, 0);
            proof {
                assert(nodes_view(response@) =~= Seq::<ContentNodeView>::empty());
            }
            read_interaction(nodes, UNKNOWN_TIME, response)
        },
    }
}

/// The interaction in a block: none where the block has no content cell,
/// a failure where a search in it failed.
pub open spec fn block_interaction(block: InteractionBlockView) -> Result<
    Option<InteractionView>,
    QueryError,
> {
    match block {
        InteractionBlockView::LookupFailed => Err(QueryError::ContentCell),
        InteractionBlockView::NoContent => Ok(None),
        InteractionBlockView::Content(nodes) => cell_interaction(nodes, marker(nodes)),
    }
}

/// Extracts the interaction of one block: the query in front of the first
/// timestamp marker, the timestamp after it, and the fragments of the
/// siblings that follow. Without a marker all the text is the query. An
/// interaction with neither query nor fragments is none.
pub fn process_interaction_element(block: &InteractionBlock) -> (outcome: Result<
    Option<Interaction>,
    QueryError,
>)
    ensures
        block_outcome_view(outcome) == block_interaction(block@),
        outcome matches Ok(Some(interaction)) ==> is_sound(interaction@),
{
    proof {
        lemma_block_interaction_is_sound(block@);
    }
    match block {
        InteractionBlock::LookupFailed => Err(QueryError::ContentCell),
        InteractionBlock::NoContent => Ok(None),
        InteractionBlock::Content(nodes) => {
            let marker = find_timestamp_marker(nodes.as_slice());
            split_at_marker(nodes.as_slice(), marker)
        },
    }
}

/// The interactions of the blocks, in document order; a block that fails
/// or says nothing contributes none.
pub open spec fn extracted(blocks: Seq<InteractionBlockView>) -> Seq<InteractionView>
    decreases blocks.len(),
{
    if blocks.len() == 0 {
        Seq::empty()
    } else {
        match block_interaction(blocks.last()) {
            Ok(Some(interaction)) => extracted(blocks.drop_last()).push(interaction),
            _ => extracted(blocks.drop_last()),
        }
    }
}

/// No prose fragment that the walk collects is empty.
pub proof fn lemma_collected_prose_is_nonempty(region: Seq<ContentNodeView>)
    ensures
        region_fragments(region) matches Ok(fragments) ==> forall|j: int|
            0 <= j < fragments.len() && fragments[j].kind == PartKind::Prose ==> (
            #[trigger] fragments[j]).content.len() > 0,
    decreases region.len(),
{
    if region.len() > 0 {
        lemma_collected_prose_is_nonempty(region.drop_last());
    }
}

/// Whether the timestamp of `interaction` is a text that holds a
/// timestamp, or `UNKNOWN_TIME`.
pub open spec fn has_sound_timestamp(interaction: InteractionView) -> bool {
    interaction.timestamp == UNKNOWN_TIME@ || is_timestamp_text(interaction.timestamp)
}

/// Whether `interaction` is as extraction leaves interactions: it has a
/// query or a response fragment, none of its prose fragments is empty, and
/// its timestamp is a text that holds a timestamp, or `UNKNOWN_TIME`.
pub open spec fn is_sound(interaction: InteractionView) -> bool {
    &&& interaction.is_substantial()
    &&& interaction.prose_is_nonempty()
    &&& has_sound_timestamp(interaction)
}

/// The interaction of a block, where it has one, is sound.
pub proof fn lemma_block_interaction_is_sound(block: InteractionBlockView)
    ensures
        block_interaction(block) matches Ok(Some(interaction)) ==> is_sound(interaction),
{
    match block {
        InteractionBlockView::Content(nodes) => {
            lemma_marker_is_first(nodes);
            match marker(nodes) {
                Some(at) if 0 <= at && at + 1 < nodes.len() => {
                    lemma_collected_prose_is_nonempty(nodes.skip(at + 2));
                },
                _ => {},
            }
        },
        _ => {},
    }
}

/// Every extracted interaction is sound.
pub proof fn lemma_extracted_is_sound(blocks: Seq<InteractionBlockView>)
    ensures
        forall|i: int| 0 <= i < extracted(blocks).len() ==> is_sound(#[trigger] extracted(blocks)[i]),
    decreases blocks.len(),
{
    if blocks.len() > 0 {
        let earlier = extracted(blocks.drop_last());
        lemma_extracted_is_sound(blocks.drop_last());
        assert forall|i: int| 0 <= i < extracted(blocks).len() implies is_sound(
            #[trigger] extracted(blocks)[i],
        ) by {
            if i >= earlier.len() {
                lemma_block_interaction_is_sound(blocks.last());
            }
        }
    }
}

/// Extracts the interactions of a document from its interaction blocks, in
/// document order. A block that cannot be processed is passed over.
pub fn parse_html(blocks: &Vec<InteractionBlock>) -> (interactions: Vec<Interaction>)
    ensures
        interactions_view(interactions@) == extracted(blocks_view(blocks@)),
        forall|i: int| 0 <= i < interactions.len() ==> is_sound(#[trigger] interactions@[i]@),
{
    let mut interactions: Vec<Interaction> = Vec::new();
    let mut at: usize = 0;
    while at < blocks.len()
        invariant
            at <= blocks.len(),
            interactions_view(interactions@) == extracted(blocks_view(blocks@).take(at as int)),
        decreases blocks.len() - at,
    {
        let outcome = process_interaction_element(&blocks[at]);
        proof {
            let all = blocks_view(blocks@);
            assert(all.take(at + 1).drop_last() == all.take(at as int));
        }
        match outcome {
            Ok(Some(interaction)) => {
                interactions.push(interaction);
            },
            _ => {},
        }
        at = at + 1;
    }
    proof {
        let all = blocks_view(blocks@);
        assert(all.take(at as int) == all);
        lemma_extracted_is_sound(all);
        assert forall|i: int| 0 <= i < interactions.len() implies is_sound(
            #[trigger] interactions@[i]@,
        ) by {
            assert(interactions_view(interactions@)[i] == interactions@[i]@);
        }
    }
    interactions
}

} // verus!
