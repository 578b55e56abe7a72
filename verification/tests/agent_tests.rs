use complexity_core::agent::{
    classify_tool, filename_matches, parse_model_name, parse_response, read_file_outcome,
    sanitize_filename, Logger, ParsedResponse, ToolKind,
};

#[test]
fn sanitize_replaces_special_characters() {
    assert_eq!(sanitize_filename("gpt-4o-mini"), "gpt-4o-mini");
    assert_eq!(sanitize_filename("a/b\\c:d*e?f\"g<h>i|j"), "a-b-c-d-e-f-g-h-i-j");
    assert_eq!(sanitize_filename(""), "");
}

#[test]
fn final_answer_wins_and_is_trimmed() {
    let response = "Thought: done\nFinal Answer:   the docs\nwith more  ";
    match parse_response(response) {
        ParsedResponse::Final(ans) => assert_eq!(ans, "the docs\nwith more"),
        _ => panic!("expected a final answer"),
    }
}

#[test]
fn action_with_input_is_collected() {
    let response = "Thought: I need the files\nAction: find_all_matching_files\nAction Input: {\"directory\": \"src\",\n \"pattern\": \"*.rs\"}\nObservation: ignored";
    match parse_response(response) {
        ParsedResponse::Action { action, input } => {
            assert_eq!(action, "find_all_matching_files");
            assert_eq!(input, "{\"directory\": \"src\",\n \"pattern\": \"*.rs\"}");
        },
        _ => panic!("expected an action"),
    }
}

#[test]
fn input_collection_stops_at_section_markers() {
    let response = "Action: read_file\nAction Input: {\"file_path\": \"a.rs\"}\nThought: wait\nAction Input: {\"file_path\": \"b.rs\"}";
    match parse_response(response) {
        ParsedResponse::Action { action, input } => {
            assert_eq!(action, "read_file");
            assert_eq!(input, "{\"file_path\": \"a.rs\"}");
        },
        _ => panic!("expected an action"),
    }
}

#[test]
fn action_without_input_is_unknown() {
    let response = "Thought: hmm\nAction: read_file\nObservation: none";
    match parse_response(response) {
        ParsedResponse::Unknown => {},
        _ => panic!("expected no recognizable request"),
    }
}

#[test]
fn free_text_is_unknown() {
    match parse_response("I could not decide on a tool.") {
        ParsedResponse::Unknown => {},
        _ => panic!("expected no recognizable request"),
    }
}

#[test]
fn logger_keeps_entries_in_order() {
    let mut logger = Logger::new();
    assert!(logger.entries.is_empty());
    logger.info("starting");
    logger.error("bad file");
    logger.debug("details");
    assert_eq!(logger.entries.len(), 3);
    assert!(logger.entries[0].ends_with(" - INFO - starting"));
    assert!(logger.entries[1].ends_with(" - ERROR - bad file"));
    assert!(logger.entries[2].ends_with(" - DEBUG - details"));
}

#[test]
fn glob_patterns_match_as_documented() {
    assert!(filename_matches("*", "anything.txt"));
    assert!(filename_matches("*.*", "anything.txt"));
    assert!(filename_matches("*.rs", "main.rs"));
    assert!(!filename_matches("*.rs", "main.py"));
    assert!(!filename_matches("*.rs", "rs"));
    assert!(filename_matches("Cargo.toml", "Cargo.toml"));
    assert!(!filename_matches("Cargo.toml", "Cargo.lock"));
}

#[test]
fn read_outcomes_cover_binary_encoding_and_text() {
    let binary = read_file_outcome("img.png", vec![0x89, 0x50, 0x00, 0x47]);
    assert!(binary.file.is_none());
    assert!(binary.content.is_none());
    assert_eq!(binary.error.as_deref(), Some("Cannot read binary file: img.png"));

    let invalid = read_file_outcome("weird.bin", vec![0xff, 0xfe, 0x61]);
    assert_eq!(invalid.error.as_deref(), Some("Cannot decode file as UTF-8: weird.bin"));

    let ok = read_file_outcome("a.txt", b"hello".to_vec());
    assert_eq!(ok.file.as_deref(), Some("a.txt"));
    assert_eq!(ok.content.as_deref(), Some("hello"));
    assert!(ok.error.is_none());
}

#[test]
fn tool_names_classify() {
    assert!(matches!(classify_tool("find_all_matching_files"), ToolKind::FindAllMatchingFiles));
    assert!(matches!(classify_tool("read_file"), ToolKind::ReadFile));
    assert!(matches!(classify_tool("write_file"), ToolKind::Unknown));
}

#[test]
fn model_names_split_on_a_single_slash() {
    let (vendor, model) = parse_model_name("openai/gpt-4o-mini").expect("well-formed");
    assert_eq!(vendor, "openai");
    assert_eq!(model, "gpt-4o-mini");
    assert!(parse_model_name("gpt-4o-mini").is_none());
    assert!(parse_model_name("a/b/c").is_none());
}
