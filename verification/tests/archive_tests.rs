use gemini_processor::archive::{check_path, codec_outcome, create_zip, finish_outcome};
use gemini_processor::archive::{ArchiveError, ArchiveStep, MAX_PATH_BYTES, PATH_TOO_LONG};
use gemini_processor::document::{ButtonProbe, ContentNode, InteractionBlock, NodeKind};
use gemini_processor::organize::FileEntry;
use gemini_processor::process_activity_html;
use std::io::{Cursor, Read};
use zip::{CompressionMethod, ZipArchive};

fn entry(path: &str, content: &[u8]) -> FileEntry {
    FileEntry { path: path.to_string(), content: content.to_vec() }
}

fn read_back(bytes: Vec<u8>) -> Vec<(String, Vec<u8>)> {
    let mut archive = ZipArchive::new(Cursor::new(bytes)).unwrap();
    let mut entries = Vec::new();
    for i in 0..archive.len() {
        let mut stored = archive.by_index(i).unwrap();
        let mut content = Vec::new();
        stored.read_to_end(&mut content).unwrap();
        entries.push((stored.name().to_string(), content));
    }
    entries
}

fn node(kind: NodeKind, name: &str, text: &str, button: ButtonProbe) -> ContentNode {
    ContentNode { kind, name: name.to_string(), text: Some(text.to_string()), button }
}

fn recursion_block() -> InteractionBlock {
    InteractionBlock::Content(vec![
        node(NodeKind::Text, "#text", "Prompted Explain recursion", ButtonProbe::Absent),
        node(NodeKind::Element, "BR", "", ButtonProbe::Absent),
        node(NodeKind::Text, "#text", "Jan 5, 2024, 10:32:15 PM UTC", ButtonProbe::Absent),
        node(NodeKind::Element, "BR", "", ButtonProbe::Absent),
        node(NodeKind::Element, "P", "Recursion is...", ButtonProbe::Absent),
    ])
}

#[test]
fn archive_holds_each_file_at_its_path_in_order() {
    let files = vec![
        entry("prompts/t_0_q_prompt.txt", b"a question"),
        entry("python/t_0_q_response_0.py", b"def f():\n    pass\n"),
        entry("text/t_0_q_response_1.txt", b""),
        entry("text/t_1_\u{e9}_response_0.txt", "caf\u{e9}".as_bytes()),
    ];
    let bytes = create_zip(files.clone()).unwrap();
    let stored = read_back(bytes);
    assert_eq!(stored.len(), files.len());
    for (i, file) in files.iter().enumerate() {
        assert_eq!(stored[i].0, file.path);
        assert_eq!(stored[i].1, file.content);
    }
}

#[test]
fn archive_of_nothing_is_an_empty_archive() {
    let bytes = create_zip(Vec::new()).unwrap();
    assert!(!bytes.is_empty());
    assert_eq!(read_back(bytes), Vec::new());
}

#[test]
fn archive_holds_more_entries_than_the_short_count_can_say() {
    let files: Vec<FileEntry> =
        (0..65_536).map(|i| entry(&format!("text/f_{}.txt", i), format!("{}", i).as_bytes())).collect();
    let stored = read_back(create_zip(files.clone()).unwrap());
    assert_eq!(stored.len(), files.len());
    for i in [0, 1, 65_534, 65_535] {
        assert_eq!(stored[i].0, files[i].path);
        assert_eq!(stored[i].1, files[i].content);
    }
}

#[test]
fn entries_are_deflated() {
    let content = "again and again and again and again ".repeat(200);
    let bytes = create_zip(vec![entry("text/long.txt", content.as_bytes())]).unwrap();
    assert!(bytes.len() < content.len());
    let mut archive = ZipArchive::new(Cursor::new(bytes)).unwrap();
    let stored = archive.by_index(0).unwrap();
    assert_eq!(stored.compression(), CompressionMethod::Deflated);
    assert_eq!(stored.size(), content.len() as u64);
}

#[test]
fn every_entry_is_deflated_even_an_empty_one() {
    let files = vec![entry("a", b""), entry("b", b"x"), entry("c", &[0u8; 1000])];
    let mut archive = ZipArchive::new(Cursor::new(create_zip(files).unwrap())).unwrap();
    for i in 0..archive.len() {
        assert_eq!(archive.by_index(i).unwrap().compression(), CompressionMethod::Deflated);
    }
}

#[test]
fn entries_with_the_same_path_are_both_kept() {
    let bytes = create_zip(vec![entry("same", b"first"), entry("same", b"second")]).unwrap();
    assert_eq!(
        read_back(bytes),
        vec![("same".to_string(), b"first".to_vec()), ("same".to_string(), b"second".to_vec())]
    );
}

#[test]
fn writing_twice_gives_the_same_archive() {
    let files = vec![entry("prompts/a.txt", b"one"), entry("text/b.txt", b"two two two")];
    let first = create_zip(files.clone()).unwrap();
    let second = create_zip(files).unwrap();
    assert_eq!(read_back(first.clone()), read_back(second.clone()));
    assert_eq!(first, second);
}

#[test]
fn path_at_the_limit_is_written() {
    let path = "p".repeat(MAX_PATH_BYTES);
    assert_eq!(check_path(&path, 0), Ok(()));
    let bytes = create_zip(vec![entry(&path, b"x")]).unwrap();
    assert_eq!(read_back(bytes), vec![(path, b"x".to_vec())]);
}

#[test]
fn path_beyond_the_limit_is_refused() {
    assert_eq!(MAX_PATH_BYTES, 65535);
    let long = "p".repeat(MAX_PATH_BYTES + 1);
    let error = check_path(&long, 4).unwrap_err();
    assert_eq!(error.step, ArchiveStep::Path);
    assert_eq!(error.entry, 4);
    assert_eq!(error.message, PATH_TOO_LONG);
    assert_eq!(PATH_TOO_LONG, "path too long for the archive");
    let wide = "é".repeat(40000);
    assert_eq!(check_path(&wide, 0).unwrap_err().step, ArchiveStep::Path);
    let narrow = "é".repeat(30000);
    assert_eq!(check_path(&narrow, 0), Ok(()));
}

#[test]
fn archive_with_a_path_beyond_the_limit_is_not_written() {
    let long = "p".repeat(70000);
    let files = vec![entry("fine", b"1"), entry("also fine", b"2"), entry(&long, b"3"), entry(&long, b"4")];
    assert_eq!(
        create_zip(files),
        Err(ArchiveError { step: ArchiveStep::Path, entry: 2, message: PATH_TOO_LONG.to_string() })
    );
}

#[test]
fn codec_success_is_passed_on() {
    assert_eq!(codec_outcome(Ok(()), ArchiveStep::Start, 3), Ok(()));
    assert_eq!(finish_outcome(Ok(vec![1, 2, 3]), 3), Ok(vec![1, 2, 3]));
}

#[test]
fn codec_failure_is_reported_with_step_entry_and_words() {
    assert_eq!(
        codec_outcome(Err("specified file not found in archive".to_string()), ArchiveStep::Start, 3),
        Err(ArchiveError {
            step: ArchiveStep::Start,
            entry: 3,
            message: "specified file not found in archive".to_string(),
        })
    );
    assert_eq!(
        codec_outcome(Err("Large file option has not been set".to_string()), ArchiveStep::Write, 0),
        Err(ArchiveError {
            step: ArchiveStep::Write,
            entry: 0,
            message: "Large file option has not been set".to_string(),
        })
    );
    assert_eq!(
        finish_outcome(Err("disk full".to_string()), 9),
        Err(ArchiveError { step: ArchiveStep::Finish, entry: 9, message: "disk full".to_string() })
    );
    assert_eq!(
        finish_outcome(Err(String::new()), 0),
        Err(ArchiveError { step: ArchiveStep::Finish, entry: 0, message: String::new() })
    );
}

#[test]
fn recursion_document_gives_two_entries() {
    let bytes = process_activity_html(&vec![recursion_block()]).unwrap();
    assert_eq!(
        read_back(bytes),
        vec![
            (
                "prompts/Jan_5__2024__10_32_15_PM_UTC_0_explainrecursion_prompt.txt".to_string(),
                b"Explain recursion".to_vec()
            ),
            (
                "text/Jan_5__2024__10_32_15_PM_UTC_0_explainrecursion_response_0.txt".to_string(),
                b"Recursion is...".to_vec()
            ),
        ]
    );
}

#[test]
fn boilerplate_only_document_gives_an_empty_archive() {
    let block = InteractionBlock::Content(vec![
        node(NodeKind::Element, "BR", "", ButtonProbe::Absent),
        node(NodeKind::Text, "#text", "Jan 5, 2024, 10:32:15 PM UTC", ButtonProbe::Absent),
        node(NodeKind::Element, "DIV", "Explore related topics", ButtonProbe::Present),
    ]);
    let bytes = process_activity_html(&vec![block]).unwrap();
    assert_eq!(read_back(bytes), Vec::new());
}

#[test]
fn surviving_blocks_keep_their_order_and_are_numbered_anew() {
    let second = InteractionBlock::Content(vec![
        node(NodeKind::Text, "#text", "Prompted Write code", ButtonProbe::Absent),
        node(NodeKind::Element, "br", "", ButtonProbe::Absent),
        node(NodeKind::Text, "#text", " Feb 12, 2023, 1:02:03 AM ", ButtonProbe::Absent),
        node(NodeKind::Element, "PRE", "def f():\n    return 1", ButtonProbe::Absent),
        node(NodeKind::Element, "DIV", "Explore related topics", ButtonProbe::Failed),
        node(NodeKind::Text, "#text", " done ", ButtonProbe::Absent),
    ]);
    let blocks = vec![recursion_block(), InteractionBlock::NoContent, InteractionBlock::LookupFailed, second];
    let stored = read_back(process_activity_html(&blocks).unwrap());
    let paths: Vec<&str> = stored.iter().map(|e| e.0.as_str()).collect();
    assert_eq!(
        paths,
        vec![
            "prompts/Jan_5__2024__10_32_15_PM_UTC_0_explainrecursion_prompt.txt",
            "text/Jan_5__2024__10_32_15_PM_UTC_0_explainrecursion_response_0.txt",
            "prompts/Feb_12__2023__1_02_03_AM_1_writecode_prompt.txt",
            "python/Feb_12__2023__1_02_03_AM_1_writecode_response_0.py",
            "text/Feb_12__2023__1_02_03_AM_1_writecode_response_1.txt",
        ]
    );
    assert_eq!(stored[3].1, b"def f():\n    return 1".to_vec());
    assert_eq!(stored[4].1, b"done".to_vec());
}

#[test]
fn processing_twice_gives_the_same_archive() {
    let blocks = vec![recursion_block(), recursion_block()];
    let first = process_activity_html(&blocks).unwrap();
    let second = process_activity_html(&blocks).unwrap();
    assert_eq!(read_back(first.clone()), read_back(second.clone()));
    assert_eq!(first, second);
    assert_eq!(read_back(first).len(), 4);
}
