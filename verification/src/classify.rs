//! Content classification: which kind of file a response fragment's text
//! looks like, decided by the substrings it holds.

use crate::text::{contains_text, has_substring, occurs_at};
use vstd::prelude::*;

verus! {

/// A structure that a text may show signs of, from the most to the least
/// preferred.
#[derive(Clone, Copy, Debug, PartialEq, Eq, Structural)]
pub enum Structure {
    Python,
    Javascript,
    Markdown,
}

/// A Python definition: `def ` and, anywhere, a colon.
pub open spec fn looks_like_python(text: Seq<char>) -> bool {
    has_substring(text, "def "@) && has_substring(text, ":"@)
}

/// A JavaScript function: `function` and, anywhere, an opening brace.
pub open spec fn looks_like_javascript(text: Seq<char>) -> bool {
    has_substring(text, "function"@) && has_substring(text, "{"@)
}

/// Markdown: a fence of three backticks.
pub open spec fn looks_like_markdown(text: Seq<char>) -> bool {
    has_substring(text, "```"@)
}

/// The structures that `text` shows signs of, in order of preference.
pub open spec fn detected(text: Seq<char>) -> Seq<Structure> {
    (if looks_like_python(text) {
        seq![Structure::Python]
    } else {
        seq![]
    }) + (if looks_like_javascript(text) {
        seq![Structure::Javascript]
    } else {
        seq![]
    }) + (if looks_like_markdown(text) {
        seq![Structure::Markdown]
    } else {
        seq![]
    })
}

/// The structure that decides where a text goes: Python before JavaScript
/// before Markdown; none where no structure was found.
pub open spec fn preferred(structures: Seq<Structure>) -> Option<Structure> {
    if structures.contains(Structure::Python) {
        Some(Structure::Python)
    } else if structures.contains(Structure::Javascript) {
        Some(Structure::Javascript)
    } else if structures.contains(Structure::Markdown) {
        Some(Structure::Markdown)
    } else {
        None
    }
}

/// The folder for texts of the given structure; plain text where there is
/// none.
pub open spec fn directory_for(structure: Option<Structure>) -> Seq<char> {
    match structure {
        Some(Structure::Python) => "python"@,
        Some(Structure::Javascript) => "javascript"@,
        Some(Structure::Markdown) => "markdown"@,
        None => "text"@,
    }
}

/// The file extension for texts of the given structure, with its dot.
pub open spec fn extension_for(structure: Option<Structure>) -> Seq<char> {
    match structure {
        Some(Structure::Python) => ".py"@,
        Some(Structure::Javascript) => ".js"@,
        Some(Structure::Markdown) => ".md"@,
        None => ".txt"@,
    }
}

/// Lists the structures that `text` shows signs of, in order of preference.
pub fn detect_structures(text: &str) -> (structures: Vec<Structure>)
    ensures
        structures@ == detected(text@),
{
    let mut structures: Vec<Structure> = Vec::new();
    if contains_text(text, "def ") && contains_text(text, ":") {
        structures.push(Structure::Python);
    }
    if contains_text(text, "function") && contains_text(text, "{") {
        structures.push(Structure::Javascript);
    }
    if contains_text(text, "```") {
        structures.push(Structure::Markdown);
    }
    structures
}

/// Whether `wanted` is among `structures`.
fn lists(structures: &[Structure], wanted: Structure) -> (found: bool)
    ensures
        found == structures@.contains(wanted),
{
    let mut i: usize = 0;
    while i < structures.len()
        invariant
            i <= structures.len(),
            forall|k: int| 0 <= k < i ==> structures@[k] != wanted,
        decreases structures.len() - i,
    {
        if structures[i] == wanted {
            return true;
        }
        i = i + 1;
    }
    false
}

/// Picks the structure that decides where a text goes.
pub fn preferred_structure(structures: &[Structure]) -> (choice: Option<Structure>)
    ensures
        choice == preferred(structures@),
{
    if lists(structures, Structure::Python) {
        Some(Structure::Python)
    } else if lists(structures, Structure::Javascript) {
        Some(Structure::Javascript)
    } else if lists(structures, Structure::Markdown) {
        Some(Structure::Markdown)
    } else {
        None
    }
}

/// The folder that a text with these structures is filed under.
pub fn get_directory(structures: &[Structure]) -> (directory: &'static str)
    ensures
        directory@ == directory_for(preferred(structures@)),
{
    match preferred_structure(structures) {
        Some(Structure::Python) => "python",
        Some(Structure::Javascript) => "javascript",
        Some(Structure::Markdown) => "markdown",
        None => "text",
    }
}

/// The extension of the file that a text with these structures is written
/// to.
pub fn get_file_extension(structures: &[Structure]) -> (extension: &'static str)
    ensures
        extension@ == extension_for(preferred(structures@)),
{
    match preferred_structure(structures) {
        Some(Structure::Python) => ".py",
        Some(Structure::Javascript) => ".js",
        Some(Structure::Markdown) => ".md",
        None => ".txt",
    }
}

// ---------------------------------------------------------------------------
// Where texts go
// ---------------------------------------------------------------------------

/// What stands in a part of a text stands in the text.
pub proof fn lemma_part_of_part(
    text: Seq<char>,
    part: Seq<char>,
    at: int,
    piece: Seq<char>,
    offset: int,
)
    requires
        occurs_at(text, part, at),
        occurs_at(part, piece, offset),
    ensures
        occurs_at(text, piece, at + offset),
        has_substring(text, piece),
{
    assert(text.subrange(at + offset, at + offset + piece.len()) =~= text.subrange(
        at,
        at + part.len(),
    ).subrange(offset, offset + piece.len()));
    assert(occurs_at(text, piece, at + offset));
}

/// A text that holds `def foo():` is filed as Python, whatever else it
/// holds.
pub proof fn lemma_python_definition_is_python(text: Seq<char>)
    requires
        has_substring(text, "def foo():"@),
    ensures
        preferred(detected(text)) == Some(Structure::Python),
        directory_for(preferred(detected(text))) == "python"@,
        extension_for(preferred(detected(text))) == ".py"@,
{
    reveal_strlit("def foo():");
    reveal_strlit("def ");
    reveal_strlit(":");
    let sample = "def foo():"@;
    let at = choose|at: int| occurs_at(text, sample, at);
    assert(sample.subrange(0, 4) =~= "def "@);
    assert(sample.subrange(9, 10) =~= ":"@);
    lemma_part_of_part(text, sample, at, "def "@, 0);
    lemma_part_of_part(text, sample, at, ":"@, 9);
    assert(detected(text)[0] == Structure::Python);
}

/// A text that holds `function() {` is filed as JavaScript, unless it
/// looks like Python.
pub proof fn lemma_function_is_javascript(text: Seq<char>)
    requires
        has_substring(text, "function() {"@),
        !looks_like_python(text),
    ensures
        preferred(detected(text)) == Some(Structure::Javascript),
        directory_for(preferred(detected(text))) == "javascript"@,
        extension_for(preferred(detected(text))) == ".js"@,
{
    reveal_strlit("function() {");
    reveal_strlit("function");
    reveal_strlit("{");
    let sample = "function() {"@;
    let at = choose|at: int| occurs_at(text, sample, at);
    assert(sample.subrange(0, 8) =~= "function"@);
    assert(sample.subrange(11, 12) =~= "{"@);
    lemma_part_of_part(text, sample, at, "function"@, 0);
    lemma_part_of_part(text, sample, at, "{"@, 11);
    assert(detected(text)[0] == Structure::Javascript);
}

/// A text with a fence of three backticks is filed as Markdown, unless it
/// looks like Python or JavaScript.
pub proof fn lemma_fence_is_markdown(text: Seq<char>)
    requires
        looks_like_markdown(text),
        !looks_like_python(text),
        !looks_like_javascript(text),
    ensures
        preferred(detected(text)) == Some(Structure::Markdown),
        directory_for(preferred(detected(text))) == "markdown"@,
        extension_for(preferred(detected(text))) == ".md"@,
{
    assert(detected(text)[0] == Structure::Markdown);
}

/// A text that shows no sign of any structure is filed as plain text.
pub proof fn lemma_plain_is_text(text: Seq<char>)
    requires
        !looks_like_python(text),
        !looks_like_javascript(text),
        !looks_like_markdown(text),
    ensures
        preferred(detected(text)) is None,
        directory_for(preferred(detected(text))) == "text"@,
        extension_for(preferred(detected(text))) == ".txt"@,
{
}

} // verus!
