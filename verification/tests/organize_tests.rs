use gemini_processor::interaction::{Interaction, PartKind, ResponsePart};
use gemini_processor::organize::{organize_content, push_interaction_entries, FileEntry};

fn part(kind: PartKind, content: &str) -> ResponsePart {
    ResponsePart { kind, content: content.to_string() }
}

fn interaction(query: &str, timestamp: &str, parts: Vec<ResponsePart>) -> Interaction {
    Interaction { query: query.to_string(), timestamp: timestamp.to_string(), response_parts: parts }
}

fn file(path: &str, content: &str) -> FileEntry {
    FileEntry { path: path.to_string(), content: content.as_bytes().to_vec() }
}

fn paths_of(files: &[FileEntry]) -> Vec<String> {
    files.iter().map(|f| f.path.clone()).collect()
}

#[test]
fn recursion_interaction_gives_prompt_and_response() {
    let files = organize_content(vec![interaction(
        "Explain recursion",
        "Jan 5, 2024, 10:32:15 PM UTC",
        vec![part(PartKind::Prose, "Recursion is...")],
    )]);
    assert_eq!(
        files,
        vec![
            file(
                "prompts/Jan_5__2024__10_32_15_PM_UTC_0_explainrecursion_prompt.txt",
                "Explain recursion"
            ),
            file(
                "text/Jan_5__2024__10_32_15_PM_UTC_0_explainrecursion_response_0.txt",
                "Recursion is..."
            ),
        ]
    );
}

#[test]
fn fragments_are_filed_by_what_their_text_looks_like() {
    let files = organize_content(vec![interaction(
        "q",
        "t",
        vec![
            part(PartKind::Prose, "def foo():"),
            part(PartKind::CodeBlock, "function() {"),
            part(PartKind::Prose, "```\nfenced\n```"),
            part(PartKind::CodeBlock, "plain prose"),
        ],
    )]);
    assert_eq!(
        paths_of(&files),
        vec![
            "prompts/t_0_q_prompt.txt",
            "python/t_0_q_response_0.py",
            "javascript/t_0_q_response_1.js",
            "markdown/t_0_q_response_2.md",
            "text/t_0_q_response_3.txt",
        ]
    );
    assert_eq!(files[1].content, b"def foo():".to_vec());
    assert_eq!(files[4].content, b"plain prose".to_vec());
}

#[test]
fn empty_query_gives_no_prompt_file() {
    let files = organize_content(vec![interaction(
        "",
        "Unknown_Time",
        vec![part(PartKind::Prose, "answer")],
    )]);
    assert_eq!(files, vec![file("text/Unknown_Time_0_unnamed_response_0.txt", "answer")]);
}

#[test]
fn query_without_fragments_gives_only_the_prompt_file() {
    let files = organize_content(vec![interaction("Only a question?", "Unknown_Time", Vec::new())]);
    assert_eq!(
        files,
        vec![file("prompts/Unknown_Time_0_onlyaquestion_prompt.txt", "Only a question?")]
    );
}

#[test]
fn empty_code_block_gives_an_empty_file() {
    let files = organize_content(vec![interaction("q", "t", vec![part(PartKind::CodeBlock, "")])]);
    assert_eq!(
        files,
        vec![file("prompts/t_0_q_prompt.txt", "q"), file("text/t_0_q_response_0.txt", "")]
    );
}

#[test]
fn long_query_is_cut_in_the_name_but_kept_in_the_file() {
    let query = format!("{} tail", "A".repeat(60));
    let files = organize_content(vec![interaction(&query, "t", Vec::new())]);
    assert_eq!(files.len(), 1);
    assert_eq!(files[0].path, format!("prompts/t_0_{}_prompt.txt", "a".repeat(50)));
    assert_eq!(files[0].content, query.as_bytes().to_vec());
}

#[test]
fn content_is_stored_as_utf8() {
    let files = organize_content(vec![interaction("é", "t", vec![part(PartKind::Prose, "日本")])]);
    assert_eq!(files[0].path, "prompts/t_0_é_prompt.txt");
    assert_eq!(files[0].content, vec![0xC3, 0xA9]);
    assert_eq!(files[1].content, "日本".as_bytes().to_vec());
}

#[test]
fn interactions_are_numbered_by_position() {
    let files = organize_content(vec![
        interaction("", "t", vec![part(PartKind::Prose, "a")]),
        interaction("same", "t", vec![part(PartKind::Prose, "b"), part(PartKind::Prose, "c")]),
        interaction("same", "t", vec![part(PartKind::Prose, "b")]),
    ]);
    assert_eq!(
        paths_of(&files),
        vec![
            "text/t_0_unnamed_response_0.txt",
            "prompts/t_1_same_prompt.txt",
            "text/t_1_same_response_0.txt",
            "text/t_1_same_response_1.txt",
            "prompts/t_2_same_prompt.txt",
            "text/t_2_same_response_0.txt",
        ]
    );
}

#[test]
fn there_is_one_file_for_each_query_and_each_fragment() {
    let mut interactions = Vec::new();
    let mut expected = 0;
    for i in 0..12 {
        let query = if i % 3 == 0 { "" } else { "q" };
        let parts: Vec<ResponsePart> =
            (0..(i % 4)).map(|j| part(PartKind::Prose, &format!("part {}", j))).collect();
        if query.is_empty() && parts.is_empty() {
            continue;
        }
        expected += usize::from(!query.is_empty()) + parts.len();
        interactions.push(interaction(query, "t", parts));
    }
    assert_eq!(organize_content(interactions).len(), expected);
}

#[test]
fn colliding_timestamps_and_queries_still_give_unique_paths() {
    let interactions = vec![
        interaction("x", "a", vec![part(PartKind::Prose, "r"), part(PartKind::Prose, "r")]),
        interaction("x", "a", vec![part(PartKind::Prose, "r"), part(PartKind::Prose, "def f():")]),
        interaction("2 x", "a", vec![part(PartKind::Prose, "r")]),
        interaction("x", "a_1", vec![part(PartKind::Prose, "r")]),
        interaction("x_response_0", "a", vec![part(PartKind::Prose, "r")]),
        interaction("1", "1", (0..11).map(|_| part(PartKind::Prose, "r")).collect()),
        interaction("1", "1_1", (0..11).map(|_| part(PartKind::Prose, "r")).collect()),
    ];
    let files = organize_content(interactions);
    let mut paths = paths_of(&files);
    let count = paths.len();
    assert_eq!(count, 7 + 2 + 2 + 1 + 1 + 1 + 11 + 11);
    paths.sort();
    paths.dedup();
    assert_eq!(paths.len(), count);
}

#[test]
fn no_interactions_give_no_files() {
    assert_eq!(organize_content(Vec::new()), Vec::new());
}

#[test]
fn entries_of_one_interaction_are_appended() {
    let mut files = vec![file("kept", "as it is")];
    push_interaction_entries(
        &mut files,
        &interaction("Q", "T", vec![part(PartKind::Prose, "R")]),
        7,
    );
    assert_eq!(
        files,
        vec![
            file("kept", "as it is"),
            file("prompts/T_7_q_prompt.txt", "Q"),
            file("text/T_7_q_response_0.txt", "R"),
        ]
    );
}

#[test]
fn organizing_twice_gives_the_same_files() {
    let make = || {
        vec![
            interaction("Explain recursion", "Jan 5, 2024, 10:32:15 PM UTC", vec![part(PartKind::Prose, "Recursion is...")]),
            interaction("", "Unknown_Time", vec![part(PartKind::CodeBlock, "def f(): pass")]),
        ]
    };
    assert_eq!(organize_content(make()), organize_content(make()));
}
