//! The organizer: from interactions to the files of the archive.

use crate::classify::{detect_structures, detected, preferred};
use crate::interaction::{interactions_view, Interaction, InteractionView, ResponsePartView};
use crate::naming::{base_name, build_base_name, lemma_base_name_tells_index};
use crate::naming::{lemma_long_query_is_cut, safe_name, safe_timestamp, sanitized};
use crate::naming::MAX_QUERY_LENGTH;
use crate::paths::{build_prompt_path, build_response_path, prompt_path, response_path};
use crate::paths::{lemma_prompt_path_is_no_response_path, lemma_prompt_path_tells_stem};
use crate::paths::lemma_response_path_tells_stem_and_part;
use crate::text::{decimal, unicode_lowercase};
use vstd::prelude::*;
use vstd::string::StrSliceExecFns;
use vstd::utf8::encode_utf8;

verus! {

/// One file of the archive.
#[derive(Clone, Debug, PartialEq, Eq)]
pub struct FileEntry {
    /// The path inside the archive, with `/` between its parts.
    pub path: String,
    /// What the file holds.
    pub content: Vec<u8>,
}

/// A file as contracts see it.
pub struct FileEntryView {
    pub path: Seq<char>,
    pub content: Seq<u8>,
}

impl View for FileEntry {
    type V = FileEntryView;

    open spec fn view(&self) -> FileEntryView {
        FileEntryView { path: self.path@, content: self.content@ }
    }
}

/// The views of a run of files.
pub open spec fn files_view(files: Seq<FileEntry>) -> Seq<FileEntryView> {
    files.map_values(|f: FileEntry| f@)
}

/// The stem of the paths of `interaction`, which stands at position `index`.
pub open spec fn stem(interaction: InteractionView, index: nat) -> Seq<char> {
    base_name(interaction.timestamp, index, interaction.query)
}

/// The file that holds the query of `interaction`, unsanitized.
pub open spec fn prompt_entry(interaction: InteractionView, index: nat) -> FileEntryView {
    FileEntryView {
        path: prompt_path(stem(interaction, index)),
        content: encode_utf8(interaction.query),
    }
}

/// The file that holds response fragment number `part` of `interaction`.
pub open spec fn response_entry(interaction: InteractionView, index: nat, part: int)
    -> FileEntryView
    recommends
        0 <= part < interaction.response_parts.len(),
{
    let content = interaction.response_parts[part].content;
    FileEntryView {
        path: response_path(preferred(detected(content)), stem(interaction, index), part as nat),
        content: encode_utf8(content),
    }
}

/// The prompt file of `interaction`, if its query is not empty.
pub open spec fn prompt_entries(interaction: InteractionView, index: nat) -> Seq<FileEntryView> {
    if interaction.query.len() > 0 {
        seq![prompt_entry(interaction, index)]
    } else {
        seq![]
    }
}

/// The response files of `interaction`, one for each fragment, in order.
pub open spec fn response_entries(interaction: InteractionView, index: nat) -> Seq<
    FileEntryView,
> {
    Seq::new(
        interaction.response_parts.len(),
        |part: int| response_entry(interaction, index, part),
    )
}

/// The files of `interaction`: its prompt file, if any, then its response
/// files.
pub open spec fn interaction_entries(interaction: InteractionView, index: nat) -> Seq<
    FileEntryView,
> {
    prompt_entries(interaction, index) + response_entries(interaction, index)
}

/// The files of all `interactions`, each interaction numbered by its
/// position.
pub open spec fn organized(interactions: Seq<InteractionView>) -> Seq<FileEntryView>
    decreases interactions.len(),
{
    if interactions.len() == 0 {
        seq![]
    } else {
        organized(interactions.drop_last()) + interaction_entries(
            interactions.last(),
            (interactions.len() - 1) as nat,
        )
    }
}

/// Appends the files of `interaction`, which stands at position `index`.
pub fn push_interaction_entries(files: &mut Vec<FileEntry>, interaction: &Interaction, index: usize)
    ensures
        files_view(final(files)@) == files_view(old(files)@) + interaction_entries(
            interaction@,
            index as nat,
        ),
{
    let ghost before = files_view(files@);
    let base = build_base_name(
        interaction.timestamp.as_str(),
        index,
        interaction.query.as_str(),
    );
    if !interaction.query.as_str().is_empty() {
        let entry = FileEntry {
            path: build_prompt_path(base.as_str()),
            content: interaction.query.as_str().as_bytes_vec(),
        };
        files.push(entry);
    }
    let mut part: usize = 0;
    while part < interaction.response_parts.len()
        invariant
            part <= interaction.response_parts.len(),
            base@ == stem(interaction@, index as nat),
            files_view(files@) == before + prompt_entries(interaction@, index as nat)
                + response_entries(interaction@, index as nat).take(part as int),
        decreases interaction.response_parts.len() - part,
    {
        let content = interaction.response_parts[part].content.as_str();
        let structures = detect_structures(content);
        let entry = FileEntry {
            path: build_response_path(structures.as_slice(), base.as_str(), part),
            content: content.as_bytes_vec(),
        };
        let ghost filed = files_view(files@);
        files.push(entry);
        proof {
            let responses = response_entries(interaction@, index as nat);
            assert(files_view(files@) == filed.push(responses[part as int]));
            assert(responses.take(part + 1) == responses.take(part as int).push(
                responses[part as int],
            ));
        }
        part = part + 1;
    }
    assert(response_entries(interaction@, index as nat).take(part as int) == response_entries(
        interaction@,
        index as nat,
    ));
}

/// Lays the interactions out as files: for each interaction, numbered by
/// its position, the prompt file if the query is not empty, then one file
/// for each response fragment, filed by what its text looks like.
pub fn organize_content(interactions: Vec<Interaction>) -> (files: Vec<FileEntry>)
    ensures
        files_view(files@) == organized(interactions_view(interactions@)),
        files.len() == with_query(interactions_view(interactions@)).len() + all_fragments(
            interactions_view(interactions@),
        ).len(),
        paths_differ(files_view(files@)),
{
    let mut files: Vec<FileEntry> = Vec::new();
    let mut index: usize = 0;
    while index < interactions.len()
        invariant
            index <= interactions.len(),
            files_view(files@) == organized(interactions_view(interactions@).take(index as int)),
        decreases interactions.len() - index,
    {
        push_interaction_entries(&mut files, &interactions[index], index);
        proof {
            let all = interactions_view(interactions@);
            assert(all.take(index + 1).drop_last() == all.take(index as int));
        }
        index = index + 1;
    }
    proof {
        let all = interactions_view(interactions@);
        assert(all.take(index as int) == all);
        lemma_file_count(all);
        lemma_paths_are_unique(all);
    }
    files
}

// ---------------------------------------------------------------------------
// How many files, and that no two share a path
// ---------------------------------------------------------------------------

/// The interactions that have a query.
pub open spec fn with_query(interactions: Seq<InteractionView>) -> Seq<InteractionView> {
    interactions.filter(|i: InteractionView| i.query.len() > 0)
}

/// The response fragments of all interactions, in order.
pub open spec fn all_fragments(interactions: Seq<InteractionView>) -> Seq<ResponsePartView> {
    interactions.map_values(|i: InteractionView| i.response_parts).flatten()
}

/// Whether no two of `files` share a path.
pub open spec fn paths_differ(files: Seq<FileEntryView>) -> bool {
    forall|a: int, b: int|
        0 <= a < b < files.len() ==> (#[trigger] files[a]).path != (#[trigger] files[b]).path
}

/// No file is dropped and none is made up: there is one file for each
/// non-empty query and one for each response fragment.
pub proof fn lemma_file_count(interactions: Seq<InteractionView>)
    ensures
        organized(interactions).len() == with_query(interactions).len() + all_fragments(
            interactions,
        ).len(),
    decreases interactions.len(),
{
    let asked = |i: InteractionView| i.query.len() > 0;
    let parts = |i: InteractionView| i.response_parts;
    if interactions.len() == 0 {
        assert(with_query(interactions).len() == 0) by {
            interactions.lemma_filter_len(asked);
        }
    } else {
        let earlier = interactions.drop_last();
        let last = interactions.last();
        lemma_file_count(earlier);
        assert(interactions == earlier.push(last));
        earlier.lemma_filter_push(last, asked);
        assert(interactions.map_values(parts) =~= earlier.map_values(parts).push(
            last.response_parts,
        ));
        earlier.map_values(parts).lemma_flatten_push(last.response_parts);
    }
}

/// Whether none of the response fragments of `interactions` is empty.
pub open spec fn fragments_are_nonempty(interactions: Seq<InteractionView>) -> bool {
    forall|i: int, j: int|
        0 <= i < interactions.len() && 0 <= j < interactions[i].response_parts.len() ==> (
        #[trigger] interactions[i].response_parts[j]).content.len() > 0
}

/// Where no response fragment is empty, the files are as many as the
/// non-empty queries and the non-empty response fragments together.
pub proof fn lemma_file_count_of_nonempty_fragments(interactions: Seq<InteractionView>)
    requires
        fragments_are_nonempty(interactions),
    ensures
        organized(interactions).len() == with_query(interactions).len() + all_fragments(
            interactions,
        ).filter(|p: ResponsePartView| p.content.len() > 0).len(),
{
    lemma_file_count(interactions);
    lemma_fragments_stay_nonempty(interactions);
    lemma_filter_keeps_all(
        all_fragments(interactions),
        |p: ResponsePartView| p.content.len() > 0,
    );
}

/// Where no fragment of any interaction is empty, none is empty in the run
/// of all fragments.
proof fn lemma_fragments_stay_nonempty(interactions: Seq<InteractionView>)
    requires
        fragments_are_nonempty(interactions),
    ensures
        forall|k: int|
            0 <= k < all_fragments(interactions).len() ==> (#[trigger] all_fragments(
                interactions,
            )[k]).content.len() > 0,
    decreases interactions.len(),
{
    let parts = |i: InteractionView| i.response_parts;
    if interactions.len() > 0 {
        let earlier = interactions.drop_last();
        let last = interactions.last();
        lemma_fragments_stay_nonempty(earlier);
        assert(interactions.map_values(parts) =~= earlier.map_values(parts).push(
            last.response_parts,
        ));
        earlier.map_values(parts).lemma_flatten_push(last.response_parts);
        let all = all_fragments(interactions);
        let before = all_fragments(earlier);
        assert forall|k: int| 0 <= k < all.len() implies (#[trigger] all[k]).content.len()
            > 0 by {
            if k >= before.len() {
                assert(all[k] == interactions[interactions.len() - 1].response_parts[k
                    - before.len()]);
            }
        }
    }
}

/// A filter that every element passes keeps the whole sequence.
proof fn lemma_filter_keeps_all(parts: Seq<ResponsePartView>, keep: spec_fn(ResponsePartView) -> bool)
    requires
        forall|k: int| 0 <= k < parts.len() ==> keep(#[trigger] parts[k]),
    ensures
        parts.filter(keep) == parts,
    decreases parts.len(),
{
    reveal(Seq::filter);
    if parts.len() > 0 {
        lemma_filter_keeps_all(parts.drop_last(), keep);
    }
}

/// However long the query, its file holds all of it; only the name of the
/// file is cut, to `MAX_QUERY_LENGTH` characters of the sanitized query.
pub proof fn lemma_long_query_is_kept_whole(interaction: InteractionView, index: nat)
    requires
        sanitized(unicode_lowercase(interaction.query)).len() > MAX_QUERY_LENGTH,
    ensures
        interaction.query.len() > 0 ==> interaction_entries(interaction, index)[0]
            == prompt_entry(interaction, index),
        prompt_entry(interaction, index).content == encode_utf8(interaction.query),
        safe_name(interaction.query, MAX_QUERY_LENGTH as nat).len() == MAX_QUERY_LENGTH,
        prompt_entry(interaction, index).path == prompt_path(
            safe_timestamp(interaction.timestamp) + seq!['_'] + decimal(index) + seq!['_']
                + sanitized(unicode_lowercase(interaction.query)).take(MAX_QUERY_LENGTH as int),
        ),
{
    lemma_long_query_is_cut(interaction.query, MAX_QUERY_LENGTH as nat);
}

/// Which file of an interaction stands at position `at` among its files:
/// its prompt file (`None`) or the file of one of its fragments.
pub proof fn lemma_entry_source(interaction: InteractionView, index: nat, at: int) -> (part: Option<
    int,
>)
    requires
        0 <= at < interaction_entries(interaction, index).len(),
    ensures
        match part {
            None => {
                &&& at == 0
                &&& interaction.query.len() > 0
                &&& interaction_entries(interaction, index)[at] == prompt_entry(interaction, index)
            },
            Some(p) => {
                &&& 0 <= p < interaction.response_parts.len()
                &&& at == p + prompt_entries(interaction, index).len()
                &&& interaction_entries(interaction, index)[at] == response_entry(
                    interaction,
                    index,
                    p,
                )
            },
        },
{
    if at < prompt_entries(interaction, index).len() {
        None
    } else {
        Some(at - prompt_entries(interaction, index).len())
    }
}

/// Two files of one interaction have different paths.
pub proof fn lemma_paths_differ_within(interaction: InteractionView, index: nat, a: int, b: int)
    requires
        0 <= a < b < interaction_entries(interaction, index).len(),
    ensures
        interaction_entries(interaction, index)[a].path != interaction_entries(
            interaction,
            index,
        )[b].path,
{
    let base = stem(interaction, index);
    let first = lemma_entry_source(interaction, index, a);
    let second = lemma_entry_source(interaction, index, b);
    let p = second->0;
    let structure = preferred(detected(interaction.response_parts[p].content));
    match first {
        None => {
            lemma_prompt_path_is_no_response_path(base, structure, base, p as nat);
        },
        Some(q) => {
            let other = preferred(detected(interaction.response_parts[q].content));
            if response_path(other, base, q as nat) == response_path(structure, base, p as nat) {
                lemma_response_path_tells_stem_and_part(
                    other,
                    base,
                    q as nat,
                    structure,
                    base,
                    p as nat,
                );
            }
        },
    }
}

/// Files of interactions at different positions have different paths,
/// whatever the interactions hold.
pub proof fn lemma_paths_differ_across(
    interaction: InteractionView,
    index: nat,
    at: int,
    other: InteractionView,
    other_index: nat,
    other_at: int,
)
    requires
        index != other_index,
        0 <= at < interaction_entries(interaction, index).len(),
        0 <= other_at < interaction_entries(other, other_index).len(),
    ensures
        interaction_entries(interaction, index)[at].path != interaction_entries(
            other,
            other_index,
        )[other_at].path,
{
    let base = stem(interaction, index);
    let other_base = stem(other, other_index);
    let path = interaction_entries(interaction, index)[at].path;
    let other_path = interaction_entries(other, other_index)[other_at].path;
    let source = lemma_entry_source(interaction, index, at);
    let other_source = lemma_entry_source(other, other_index, other_at);
    if base == other_base {
        lemma_base_name_tells_index(
            interaction.timestamp,
            index,
            interaction.query,
            other.timestamp,
            other_index,
            other.query,
        );
    }
    match (source, other_source) {
        (None, None) => {
            if path == other_path {
                lemma_prompt_path_tells_stem(base, other_base);
            }
        },
        (None, Some(q)) => {
            let structure = preferred(detected(other.response_parts[q].content));
            lemma_prompt_path_is_no_response_path(base, structure, other_base, q as nat);
        },
        (Some(p), None) => {
            let structure = preferred(detected(interaction.response_parts[p].content));
            lemma_prompt_path_is_no_response_path(other_base, structure, base, p as nat);
        },
        (Some(p), Some(q)) => {
            if path == other_path {
                lemma_response_path_tells_stem_and_part(
                    preferred(detected(interaction.response_parts[p].content)),
                    base,
                    p as nat,
                    preferred(detected(other.response_parts[q].content)),
                    other_base,
                    q as nat,
                );
            }
        },
    }
}

/// Which interaction the file at position `at` belongs to, and where it
/// stands among that interaction's files.
pub proof fn lemma_file_origin(interactions: Seq<InteractionView>, at: int) -> (origin: (int, int))
    requires
        0 <= at < organized(interactions).len(),
    ensures
        0 <= origin.0 < interactions.len(),
        0 <= origin.1 < interaction_entries(interactions[origin.0], origin.0 as nat).len(),
        organized(interactions)[at] == interaction_entries(
            interactions[origin.0],
            origin.0 as nat,
        )[origin.1],
    decreases interactions.len(),
{
    let earlier = organized(interactions.drop_last());
    if at < earlier.len() {
        lemma_file_origin(interactions.drop_last(), at)
    } else {
        (interactions.len() - 1, at - earlier.len())
    }
}

/// No two files share a path, even where interactions share their
/// timestamp and their query: the positions of the interaction and of the
/// fragment tell the paths apart.
pub proof fn lemma_paths_are_unique(interactions: Seq<InteractionView>)
    ensures
        paths_differ(organized(interactions)),
    decreases interactions.len(),
{
    if interactions.len() > 0 {
        let earlier = interactions.drop_last();
        let last = interactions.last();
        let position = (interactions.len() - 1) as nat;
        let files = organized(interactions);
        let before = organized(earlier);
        lemma_paths_are_unique(earlier);
        assert forall|a: int, b: int| 0 <= a < b < files.len() implies (#[trigger] files[a]).path
            != (#[trigger] files[b]).path by {
            if a >= before.len() {
                lemma_paths_differ_within(last, position, a - before.len(), b - before.len());
            } else if b >= before.len() {
                let origin = lemma_file_origin(earlier, a);
                lemma_paths_differ_across(
                    earlier[origin.0],
                    origin.0 as nat,
                    origin.1,
                    last,
                    position,
                    b - before.len(),
                );
            }
        }
    }
}

} // verus!
