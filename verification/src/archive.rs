//! The archiver: from files to the bytes of a compressed archive.

use crate::organize::{files_view, FileEntry, FileEntryView};
use std::io::{Cursor, Write};
use vstd::prelude::*;
use vstd::string::StringExecFns;
use vstd::utf8::encode_utf8;
use zip::write::FileOptions;
use zip::{CompressionMethod, ZipWriter};

verus! {

/// An archive that is being written into memory: a `zip::ZipWriter` over
/// a `std::io::Cursor`. What it holds is known only through
/// `written_entries` and `is_intact`.
#[verifier::external_body]
pub struct ArchiveWriter {
    inner: ZipWriter<Cursor<Vec<u8>>>,
}

/// The longest path, in bytes, that the archive format records.
pub const MAX_PATH_BYTES: usize = 0xFFFF;

/// What is said of a path that is longer.
pub const PATH_TOO_LONG: &'static str = "path too long for the archive";

/// How the content of an entry is stored.
#[derive(Clone, Copy, Debug, PartialEq, Eq, Structural)]
pub enum Compression {
    /// As it is.
    Stored,
    /// Deflated, which loses nothing.
    Deflated,
}

/// Whether entries of this kind are deflated.
pub open spec fn is_deflated(compression: Compression) -> bool {
    compression == Compression::Deflated
}

/// The entries that were handed to the writer so far, in the order in which
/// they were started: the path of each, the content written to it, and
/// whether it is deflated.
pub uninterp spec fn written_entries(writer: ArchiveWriter) -> Seq<(Seq<char>, Seq<u8>, bool)>;

/// Whether every step on the writer so far has succeeded: it is open, and
/// what it holds is whole.
pub uninterp spec fn is_intact(writer: ArchiveWriter) -> bool;

/// The entries that the archive in `bytes` holds, in the archive's order:
/// the path of each, its content as it comes out again, and whether it is
/// deflated.
pub uninterp spec fn stored_entries(bytes: Seq<u8>) -> Seq<(Seq<char>, Seq<u8>, bool)>;

/// The words with which the codec refuses to start an entry at `path`,
/// deflated or not, after the entries `written`; none where it starts the
/// entry.
pub uninterp spec fn start_failure(
    written: Seq<(Seq<char>, Seq<u8>, bool)>,
    path: Seq<char>,
    deflated: bool,
) -> Option<Seq<char>>;

/// The words with which the codec refuses `bytes` as the content of the
/// last of the entries `written`; none where it takes them.
pub uninterp spec fn write_failure(
    written: Seq<(Seq<char>, Seq<u8>, bool)>,
    bytes: Seq<u8>,
) -> Option<Seq<char>>;

/// The words with which the codec refuses to close an archive of the
/// entries `written`; none where it closes the archive.
pub uninterp spec fn close_failure(written: Seq<(Seq<char>, Seq<u8>, bool)>) -> Option<Seq<char>>;

/// What the answer to a step is to contracts: the words of the failure, if
/// it failed.
pub open spec fn failure_words(answer: Result<(), String>) -> Option<Seq<char>> {
    match answer {
        Ok(_) => None,
        Err(words) => Some(words@),
    }
}

/// Whether the archive format can record `path`: its UTF-8 form is no
/// longer than `MAX_PATH_BYTES`.
pub open spec fn path_fits(path: Seq<char>) -> bool {
    encode_utf8(path).len() <= MAX_PATH_BYTES
}

/// `zip::ZipWriter::new` on an empty buffer in memory: an intact writer to
/// which no entry was handed yet.
#[verifier::external_body]
pub(crate) fn new_writer() -> (writer: ArchiveWriter)
    ensures
        written_entries(writer) == Seq::<(Seq<char>, Seq<u8>, bool)>::empty(),
        is_intact(writer),
{
    ArchiveWriter { inner: ZipWriter::new(Cursor::new(Vec::new())) }
}

/// `zip::ZipWriter::start_file` with default options but for the
/// compression method. Whether it succeeds, and with which words it fails,
/// depends on what was written, the path and the method alone, and is left
/// to `start_failure`. Where it succeeds, the writer stays intact and has
/// one more entry, with this path and method and no content yet; the
/// earlier entries stay as they are. The path must fit, for the writer
/// records longer ones wrongly, and the writer must be intact.
#[verifier::external_body]
pub(crate) fn start_entry(writer: &mut ArchiveWriter, path: &str, compression: Compression) -> (started:
    Result<(), String>)
    requires
        is_intact(*old(writer)),
        path_fits(path@),
    ensures
        failure_words(started) == start_failure(
            written_entries(*old(writer)),
            path@,
            is_deflated(compression),
        ),
        started is Ok ==> is_intact(*final(writer)) && written_entries(*final(writer))
            == written_entries(*old(writer)).push(
            (path@, Seq::<u8>::empty(), is_deflated(compression)),
        ),
{
    let method = match compression {
        Compression::Stored => CompressionMethod::Stored,
        Compression::Deflated => CompressionMethod::Deflated,
    };
    match writer.inner.start_file(path, FileOptions::default().compression_method(method)) {
        Ok(()) => Ok(()),
        Err(error) => Err(error.to_string()),
    }
}

/// `std::io::Write::write_all` on the `zip::ZipWriter`, for the first
/// bytes of the entry that was started last. Whether it succeeds, and with
/// which words it fails, depends on what was written and on the bytes
/// alone, and is left to `write_failure`. Where it succeeds, the writer
/// stays intact and the bytes are the content of that entry; the other
/// entries stay as they are. The writer must be intact, with an entry
/// started and nothing written to it yet.
#[verifier::external_body]
pub(crate) fn write_content(writer: &mut ArchiveWriter, bytes: &[u8]) -> (written: Result<
    (),
    String,
>)
    requires
        is_intact(*old(writer)),
        written_entries(*old(writer)).len() > 0,
        written_entries(*old(writer)).last().1.len() == 0,
    ensures
        failure_words(written) == write_failure(written_entries(*old(writer)), bytes@),
        written is Ok ==> {
            let before = written_entries(*old(writer));
            &&& is_intact(*final(writer))
            &&& written_entries(*final(writer)) == before.drop_last().push(
                (before.last().0, bytes@, before.last().2),
            )
        },
{
    match writer.inner.write_all(bytes) {
        Ok(()) => Ok(()),
        Err(error) => Err(error.to_string()),
    }
}

/// `zip::ZipWriter::finish`. Whether it succeeds, and with which words it
/// fails, depends on what was written alone, and is left to
/// `close_failure`. Where it succeeds, the bytes returned are an archive
/// that holds the entries handed to the writer, with their paths, contents
/// and methods, in their order. The writer must be intact.
#[verifier::external_body]
pub(crate) fn finish_archive(writer: ArchiveWriter) -> (finished: Result<Vec<u8>, String>)
    requires
        is_intact(writer),
    ensures
        match finished {
            Ok(bytes) => close_failure(written_entries(writer)) is None && stored_entries(bytes@)
                == written_entries(writer),
            Err(words) => close_failure(written_entries(writer)) == Some(words@),
        },
{
    let mut inner = writer.inner;
    match inner.finish() {
        Ok(buffer) => Ok(buffer.into_inner()),
        Err(error) => Err(error.to_string()),
    }
}

// ---------------------------------------------------------------------------
// Writing an archive
// ---------------------------------------------------------------------------

/// The step at which writing an archive failed.
#[derive(Clone, Copy, Debug, PartialEq, Eq, Structural)]
pub enum ArchiveStep {
    /// The path of an entry is too long for the archive format.
    Path,
    /// The codec did not start the entry.
    Start,
    /// The codec did not take the entry's content.
    Write,
    /// The codec did not close the archive.
    Finish,
}

/// Why no archive was written.
#[derive(Clone, Debug, PartialEq, Eq)]
pub struct ArchiveError {
    pub step: ArchiveStep,
    /// The position of the entry at which writing failed; the number of
    /// entries where closing the archive failed.
    pub entry: usize,
    /// What went wrong, in words.
    pub message: String,
}

/// The files as the archive holds them: path, content, and deflated.
pub open spec fn as_entries(files: Seq<FileEntryView>) -> Seq<(Seq<char>, Seq<u8>, bool)> {
    files.map_values(|f: FileEntryView| (f.path, f.content, true))
}

/// Why `file` does not go into an archive that holds `before`, if it does
/// not: its path does not fit, or the codec does not start it, or the codec
/// does not take its content; with the words that say so.
pub open spec fn failure_of(before: Seq<(Seq<char>, Seq<u8>, bool)>, file: FileEntryView)
    -> Option<(ArchiveStep, Seq<char>)> {
    if !path_fits(file.path) {
        Some((ArchiveStep::Path, PATH_TOO_LONG@))
    } else {
        match start_failure(before, file.path, true) {
            Some(words) => Some((ArchiveStep::Start, words)),
            None => match write_failure(
                before.push((file.path, Seq::empty(), true)),
                file.content,
            ) {
                Some(words) => Some((ArchiveStep::Write, words)),
                None => None,
            },
        }
    }
}

/// Why the file at position `at` does not go in after the files in front
/// of it, if it does not.
pub open spec fn failure_at(files: Seq<FileEntryView>, at: int) -> Option<
    (ArchiveStep, Seq<char>),
> {
    failure_of(as_entries(files).take(at), files[at])
}

/// Whether every one of `files` goes into the archive, one after the
/// other.
pub open spec fn all_go_in(files: Seq<FileEntryView>) -> bool {
    forall|at: int| 0 <= at < files.len() ==> #[trigger] failure_at(files, at) is None
}

/// Checks that the archive format can record the path of the entry at
/// position `entry`.
pub fn check_path(path: &str, entry: usize) -> (checked: Result<(), ArchiveError>)
    ensures
        checked is Ok <==> path_fits(path@),
        checked matches Err(error) ==> error.step == ArchiveStep::Path && error.entry == entry
            && error.message@ == PATH_TOO_LONG@,
{
    if path.as_bytes().len() > MAX_PATH_BYTES {
        Err(
            ArchiveError {
                step: ArchiveStep::Path,
                entry,
                message: String::from_str(PATH_TOO_LONG),
            },
        )
    } else {
        Ok(())
    }
}

/// Reads what the codec answered at `step` for the entry at position
/// `entry`: its success is passed on, its failure is reported with the step,
/// the position and the codec's words.
pub fn codec_outcome(answer: Result<(), String>, step: ArchiveStep, entry: usize) -> (outcome:
    Result<(), ArchiveError>)
    ensures
        match (answer, outcome) {
            (Ok(_), Ok(_)) => true,
            (Err(words), Err(error)) => error.step == step && error.entry == entry
                && error.message@ == words@,
            _ => false,
        },
{
    match answer {
        Ok(()) => Ok(()),
        Err(words) => Err(ArchiveError { step, entry, message: words }),
    }
}

/// Reads what the codec answered when the archive of `entries` entries was
/// closed: the bytes are passed on, a failure is reported as one of the
/// last step, with the codec's words.
pub fn finish_outcome(answer: Result<Vec<u8>, String>, entries: usize) -> (outcome: Result<
    Vec<u8>,
    ArchiveError,
>)
    ensures
        match (answer, outcome) {
            (Ok(bytes), Ok(passed)) => passed == bytes,
            (Err(words), Err(error)) => error.step == ArchiveStep::Finish && error.entry
                == entries && error.message@ == words@,
            _ => false,
        },
{
    match answer {
        Ok(bytes) => Ok(bytes),
        Err(words) => Err(ArchiveError { step: ArchiveStep::Finish, entry: entries, message: words }),
    }
}

/// Adds one file to the archive: checks its path, starts an entry for it
/// and writes its content, deflated.
fn add_entry(writer: &mut ArchiveWriter, file: &FileEntry, entry: usize) -> (added: Result<
    (),
    ArchiveError,
>)
    requires
        is_intact(*old(writer)),
    ensures
        match added {
            Ok(()) => {
                &&& failure_of(written_entries(*old(writer)), file@) is None
                &&& is_intact(*final(writer))
                &&& written_entries(*final(writer)) == written_entries(*old(writer)).push(
                    (file@.path, file@.content, true),
                )
            },
            Err(error) => {
                &&& failure_of(written_entries(*old(writer)), file@) == Some(
                    (error.step, error.message@),
                )
                &&& error.entry == entry
            },
        },
{
    check_path(file.path.as_str(), entry)?;
    let started = start_entry(writer, file.path.as_str(), Compression::Deflated);
    codec_outcome(started, ArchiveStep::Start, entry)?;
    let written = write_content(writer, file.content.as_slice());
    codec_outcome(written, ArchiveStep::Write, entry)?;
    Ok(())
}

/// Whether `archive` is what writing `files` comes to.
///
/// There is an archive exactly where every file goes in and the codec
/// closes the archive. It holds exactly the files, deflated, in their
/// order.
///
/// A failure names the first entry that did not go in, the step at which
/// it did not, and the words for it; or, where every file went in, the
/// number of entries, the last step, and the words with which the codec
/// refused to close.
pub open spec fn archives(files: Seq<FileEntryView>, archive: Result<Vec<u8>, ArchiveError>)
    -> bool {
    match archive {
        Ok(bytes) => {
            &&& all_go_in(files)
            &&& close_failure(as_entries(files)) is None
            &&& stored_entries(bytes@) == as_entries(files)
        },
        Err(error) => {
            &&& error.entry <= files.len()
            &&& forall|at: int| 0 <= at < error.entry ==> #[trigger] failure_at(files, at) is None
            &&& if error.entry < files.len() {
                failure_at(files, error.entry as int) == Some((error.step, error.message@))
            } else {
                error.step == ArchiveStep::Finish && close_failure(as_entries(files)) == Some(
                    error.message@,
                )
            }
        },
    }
}

/// An archive is owed exactly where every file goes in and the codec closes
/// the archive; then every path fits the format. A failure of the last
/// step is one at the end, and the only one there.
pub proof fn lemma_archive_is_owed(files: Seq<FileEntryView>, archive: Result<Vec<u8>, ArchiveError>)
    requires
        archives(files, archive),
    ensures
        archive is Ok <==> all_go_in(files) && close_failure(as_entries(files)) is None,
        archive is Ok ==> forall|at: int|
            0 <= at < files.len() ==> path_fits(#[trigger] files[at].path),
        archive matches Err(error) ==> (error.step == ArchiveStep::Finish <==> error.entry
            == files.len()),
        archive matches Err(error) ==> (error.step == ArchiveStep::Path <==> error.entry
            < files.len() && !path_fits(files[error.entry as int].path)),
{
    match archive {
        Ok(_) => {
            assert forall|at: int| 0 <= at < files.len() implies path_fits(
                #[trigger] files[at].path,
            ) by {
                assert(failure_at(files, at) is None);
            }
        },
        Err(error) => {
            if error.entry < files.len() {
                assert(failure_at(files, error.entry as int) is Some);
            }
        },
    }
}

/// Writes the files into one compressed archive in memory: one entry for
/// each file, at its path and with its content, deflated, in the order
/// given. There is no partial archive: where a path is too long for the
/// format or the codec refuses a step, the failure at the first such entry
/// is all that comes back.
pub fn create_zip(file_list: Vec<FileEntry>) -> (archive: Result<Vec<u8>, ArchiveError>)
    ensures
        archives(files_view(file_list@), archive),
{
    let ghost files = files_view(file_list@);
    let ghost entries = as_entries(files);
    let mut writer = new_writer();
    let mut at: usize = 0;
    while at < file_list.len()
        invariant
            at <= file_list.len(),
            files == files_view(file_list@),
            entries == as_entries(files),
            is_intact(writer),
            written_entries(writer) == entries.take(at as int),
            forall|i: int| 0 <= i < at ==> #[trigger] failure_at(files, i) is None,
        decreases file_list.len() - at,
    {
        add_entry(&mut writer, &file_list[at], at)?;
        at = at + 1;
    }
    assert(entries.take(at as int) == entries);
    finish_outcome(finish_archive(writer), at)
}

} // verus!
