use complexity_core::extract::{FileMetrics, FunctionMetrics};
use complexity_core::lang::SupportedLanguage;
use complexity_core::report::{
    aggregate_report, bucket_distribution, flatten_functions, get_complexity_bucket,
    language_distribution, top_functions,
};

fn func(file: &str, name: &str, line: usize, cyclo: u64) -> FunctionMetrics {
    FunctionMetrics {
        file: file.to_string(),
        name: name.to_string(),
        line,
        end_line: line,
        cyclomatic_complexity: cyclo,
        cognitive_complexity: 0,
        max_nesting_depth: 0,
        lines_of_code: 1,
        parameter_count: 0,
    }
}

fn file_of(path: &str, lang: SupportedLanguage, functions: Vec<FunctionMetrics>) -> FileMetrics {
    let count = functions.len() as u64;
    let sum: u64 = functions.iter().map(|f| f.cyclomatic_complexity).sum();
    let max: u64 = functions.iter().map(|f| f.cyclomatic_complexity).max().unwrap_or(0);
    let avg = if count == 0 { 0 } else { (200 * sum + count) / (2 * count) };
    FileMetrics {
        path: path.to_string(),
        language: lang,
        lines_of_code: 10,
        function_count: count,
        class_count: 0,
        avg_complexity_centi: avg,
        max_complexity: max,
        parse_success: true,
        functions,
    }
}

#[test]
fn distribution_counts_sum_to_function_count() {
    let all = vec![
        func("a.py", "a", 1, 1),
        func("a.py", "b", 2, 5),
        func("a.py", "c", 3, 6),
        func("a.py", "d", 4, 15),
        func("a.py", "e", 5, 16),
        func("a.py", "f", 6, 40),
    ];
    let d = bucket_distribution(&all);
    assert_eq!(d.low, 2);
    assert_eq!(d.medium, 2);
    assert_eq!(d.high, 2);
    assert_eq!(d.low + d.medium + d.high, all.len() as u64);
}

#[test]
fn top_list_is_ranked_descending_with_stable_ties() {
    let all = vec![
        func("a.py", "a", 1, 5),
        func("a.py", "b", 2, 9),
        func("a.py", "c", 3, 9),
        func("a.py", "d", 4, 3),
        func("a.py", "e", 5, 12),
        func("a.py", "f", 6, 9),
    ];
    let top = top_functions(&all);
    assert_eq!(top.len(), 6);
    let names: Vec<&str> = top.iter().map(|t| t.name.as_str()).collect();
    assert_eq!(names, vec!["e", "b", "c", "f", "a", "d"]);
}

#[test]
fn top_list_stops_at_ten() {
    let mut all = Vec::new();
    let names = ["f00", "f01", "f02", "f03", "f04", "f05", "f06", "f07", "f08", "f09", "f10",
        "f11"];
    for (i, name) in names.iter().enumerate() {
        all.push(func("a.py", name, i + 1, (i + 1) as u64));
    }
    let top = top_functions(&all);
    assert_eq!(top.len(), 10);
    assert_eq!(top[0].name, "f11");
    assert_eq!(top[0].cyclomatic_complexity, 12);
    assert_eq!(top[9].name, "f02");
    assert_eq!(top[9].cyclomatic_complexity, 3);
}

#[test]
fn two_languages_fifty_functions_average_ten_score_eighteen() {
    let mut py = Vec::new();
    let mut rs = Vec::new();
    for i in 0..25usize {
        py.push(func("a.py", "p", i + 1, 10));
        rs.push(func("b.rs", "r", i + 1, 10));
    }
    let files = vec![
        file_of("a.py", SupportedLanguage::Python, py),
        file_of("b.rs", SupportedLanguage::Rust, rs),
    ];
    let report = aggregate_report("demo", &files);
    assert_eq!(report.summary.total_files, 2);
    assert_eq!(report.summary.total_functions, 50);
    assert_eq!(report.summary.languages.len(), 2);
    // 10.0 x 1.2 x 1.5 = 18.0, held in hundredths.
    assert_eq!(report.summary.complexity_score_centi, 1800);
    assert_eq!(report.summary.complexity_bucket, "simple");
    assert_eq!(report.summary.parse_success_rate_tenths, 1000);
    assert_eq!(report.distribution.medium, 50);
    assert_eq!(
        report.distribution.low + report.distribution.medium + report.distribution.high,
        report.summary.total_functions
    );
}

#[test]
fn score_grows_with_average_complexity() {
    let lo = vec![file_of(
        "a.py",
        SupportedLanguage::Python,
        vec![func("a.py", "a", 1, 4), func("a.py", "b", 2, 4)],
    )];
    let hi = vec![file_of(
        "a.py",
        SupportedLanguage::Python,
        vec![func("a.py", "a", 1, 9), func("a.py", "b", 2, 9)],
    )];
    let r1 = aggregate_report("demo", &lo);
    let r2 = aggregate_report("demo", &hi);
    assert!(r1.summary.complexity_score_centi <= r2.summary.complexity_score_centi);
}

#[test]
fn bucket_thresholds_are_inclusive_exclusive() {
    assert_eq!(get_complexity_bucket(1999).0, "simple");
    assert_eq!(get_complexity_bucket(2000).0, "medium");
    assert_eq!(get_complexity_bucket(4999).0, "medium");
    assert_eq!(get_complexity_bucket(5000).0, "complex");
    assert_eq!(get_complexity_bucket(0).1, "Small, focused codebase");
    assert_eq!(get_complexity_bucket(2000).1, "Moderate complexity codebase");
    assert_eq!(get_complexity_bucket(9000).1, "Large, complex codebase");
}

#[test]
fn parse_failures_lower_the_success_rate() {
    let ok = file_of("a.py", SupportedLanguage::Python, vec![func("a.py", "a", 1, 2)]);
    let broken = FileMetrics {
        path: "b.py".to_string(),
        language: SupportedLanguage::Python,
        lines_of_code: 7,
        function_count: 0,
        class_count: 0,
        avg_complexity_centi: 0,
        max_complexity: 0,
        parse_success: false,
        functions: Vec::new(),
    };
    let report = aggregate_report("demo", &vec![ok, broken]);
    assert_eq!(report.summary.total_files, 2);
    assert_eq!(report.summary.total_functions, 1);
    // One of two files parsed: 50.0 percent, held in tenths.
    assert_eq!(report.summary.parse_success_rate_tenths, 500);
}

#[test]
fn language_distribution_lists_present_languages_once() {
    let files = vec![
        file_of("a.py", SupportedLanguage::Python, vec![]),
        file_of("b.py", SupportedLanguage::Python, vec![]),
        file_of("c.go", SupportedLanguage::Go, vec![]),
    ];
    let langs = language_distribution(&files);
    assert_eq!(langs.len(), 2);
    assert_eq!(langs[0].language, SupportedLanguage::Python);
    assert_eq!(langs[0].count, 2);
    assert_eq!(langs[1].language, SupportedLanguage::Go);
    assert_eq!(langs[1].count, 1);
}

#[test]
fn flatten_keeps_file_then_document_order() {
    let files = vec![
        file_of(
            "a.py",
            SupportedLanguage::Python,
            vec![func("a.py", "a1", 1, 1), func("a.py", "a2", 5, 2)],
        ),
        file_of("b.py", SupportedLanguage::Python, vec![func("b.py", "b1", 2, 3)]),
    ];
    let all = flatten_functions(&files);
    let names: Vec<&str> = all.iter().map(|f| f.name.as_str()).collect();
    assert_eq!(names, vec!["a1", "a2", "b1"]);
}

#[test]
fn empty_scan_scores_zero() {
    let report = aggregate_report("empty", &Vec::new());
    assert_eq!(report.summary.total_files, 0);
    assert_eq!(report.summary.total_functions, 0);
    assert_eq!(report.summary.complexity_score_centi, 0);
    assert_eq!(report.summary.complexity_bucket, "simple");
    assert_eq!(report.summary.parse_success_rate_tenths, 0);
    assert!(report.top_complex_functions.is_empty());
    assert!(report.files.is_none());
}
