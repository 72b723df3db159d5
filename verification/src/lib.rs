//! Turns the interaction blocks of an exported activity log into a
//! compressed archive: one file for each prompt and for each fragment of a
//! response, filed by what the fragment's text looks like.

use vstd::prelude::*;

pub mod archive;
pub mod classify;
pub mod document;
pub mod extract;
pub mod interaction;
pub mod naming;
pub mod organize;
pub mod paths;
pub mod text;
pub mod timestamp;

use crate::archive::{archives, create_zip, failure_at, lemma_archive_is_owed, stored_entries};
use crate::archive::ArchiveError;
use crate::document::{blocks_view, InteractionBlock, InteractionBlockView};
use crate::extract::{extracted, parse_html};
use crate::organize::{all_fragments, lemma_file_count, lemma_paths_are_unique, organize_content};
use crate::organize::{organized, with_query, FileEntryView};

verus! {

/// The files that the archive of a document holds: those of its
/// interactions.
pub open spec fn archive_files(blocks: Seq<InteractionBlockView>) -> Seq<FileEntryView> {
    organized(extracted(blocks))
}

/// Processes a document from end to end: extracts the interactions of its
/// blocks, lays them out as files and writes the files into one archive.
pub fn process_activity_html(blocks: &Vec<InteractionBlock>) -> (archive: Result<
    Vec<u8>,
    ArchiveError,
>)
    ensures
        archives(archive_files(blocks_view(blocks@)), archive),
{
    let interactions = parse_html(blocks);
    let organized_content = organize_content(interactions);
    create_zip(organized_content)
}

/// Processing the same document twice comes to the same: both times an
/// archive, with the same paths, the same bytes at each and the same
/// method, in the same order; or both times the same failure.
pub proof fn lemma_same_document_same_outcome(
    blocks: Seq<InteractionBlockView>,
    first: Result<Vec<u8>, ArchiveError>,
    second: Result<Vec<u8>, ArchiveError>,
)
    requires
        archives(archive_files(blocks), first),
        archives(archive_files(blocks), second),
    ensures
        match (first, second) {
            (Ok(one), Ok(other)) => stored_entries(one@) == stored_entries(other@),
            (Err(one), Err(other)) => one.step == other.step && one.entry == other.entry
                && one.message@ == other.message@,
            _ => false,
        },
{
    let files = archive_files(blocks);
    lemma_archive_is_owed(files, first);
    lemma_archive_is_owed(files, second);
    match (first, second) {
        (Err(one), Err(other)) => {
            if one.entry < other.entry {
                assert(failure_at(files, one.entry as int) is None);
            } else if other.entry < one.entry {
                assert(failure_at(files, other.entry as int) is None);
            }
        },
        _ => {},
    }
}

/// The archive of a document holds one entry for each non-empty query and
/// one for each response fragment of its interactions, every entry is
/// deflated, and no two entries share a path.
pub proof fn lemma_archive_holds_every_file(blocks: Seq<InteractionBlockView>, bytes: Vec<u8>)
    requires
        archives(archive_files(blocks), Ok(bytes)),
    ensures
        stored_entries(bytes@).len() == with_query(extracted(blocks)).len() + all_fragments(
            extracted(blocks),
        ).len(),
        forall|a: int| 0 <= a < stored_entries(bytes@).len() ==> (#[trigger] stored_entries(
            bytes@,
        )[a]).2,
        forall|a: int, b: int|
            0 <= a < b < stored_entries(bytes@).len() ==> (#[trigger] stored_entries(bytes@)[a]).0
                != (#[trigger] stored_entries(bytes@)[b]).0,
{
    lemma_file_count(extracted(blocks));
    lemma_paths_are_unique(extracted(blocks));
}

} // verus!
