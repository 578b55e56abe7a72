use complexity_core::discover::{classify_candidate, content_is_binary};
use complexity_core::lang::SupportedLanguage;

#[test]
fn a_null_in_the_first_kilobyte_marks_the_file_binary() {
    let mut content = vec![b'x'; 2000];
    content[500] = 0;
    assert!(content_is_binary(&content));
    assert!(classify_candidate("py", &content).is_none());
}

#[test]
fn a_null_anywhere_marks_the_file_binary() {
    let mut content = vec![b'x'; 2000];
    content[1500] = 0;
    assert!(content_is_binary(&content));
    assert!(classify_candidate("rs", &content).is_none());
}

#[test]
fn clean_text_passes_the_heuristic() {
    let content = b"def f():\n    return 1\n".to_vec();
    assert!(!content_is_binary(&content));
    assert_eq!(classify_candidate("py", &content), Some(SupportedLanguage::Python));
}

#[test]
fn unsupported_extensions_are_not_candidates() {
    let content = b"plain text".to_vec();
    assert!(classify_candidate("txt", &content).is_none());
    assert!(classify_candidate("", &content).is_none());
}
