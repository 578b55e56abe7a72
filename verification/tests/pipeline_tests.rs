use complexity_core::extract::analyze_source;
use complexity_core::lang::SupportedLanguage;
use complexity_core::report::aggregate_report;

#[test]
fn javascript_source_parses_end_to_end() {
    let src = b"function f(a, b) {\n  return a && b ? 1 : 2;\n}\n".to_vec();
    let fm = analyze_source("web/f.js", "js", &src).expect("supported extension");
    assert!(fm.parse_success);
    assert_eq!(fm.language, SupportedLanguage::JavaScript);
    assert_eq!(fm.function_count, 1);
    assert_eq!(fm.functions[0].name, "f");
    assert_eq!(fm.functions[0].parameter_count, 2);
    // base 1 + ternary + one short-circuit operator.
    assert_eq!(fm.functions[0].cyclomatic_complexity, 3);
}

#[test]
fn typescript_source_parses_end_to_end() {
    let src = b"const f = (x: number): number => x ? 1 : 2;\n".to_vec();
    let fm = analyze_source("web/f.ts", "ts", &src).expect("supported extension");
    assert!(fm.parse_success);
    assert_eq!(fm.language, SupportedLanguage::TypeScript);
    assert_eq!(fm.function_count, 1);
    assert_eq!(fm.functions[0].name, "<anonymous>");
    assert_eq!(fm.functions[0].parameter_count, 1);
    assert_eq!(fm.functions[0].cyclomatic_complexity, 2);
}

#[test]
fn go_source_parses_end_to_end() {
    let src =
        b"package main\n\nfunc add(a int, b int) int {\n\tif a > 0 {\n\t\treturn a\n\t}\n\treturn b\n}\n"
            .to_vec();
    let fm = analyze_source("pkg/add.go", "go", &src).expect("supported extension");
    assert!(fm.parse_success);
    assert_eq!(fm.language, SupportedLanguage::Go);
    assert_eq!(fm.function_count, 1);
    assert_eq!(fm.functions[0].name, "add");
    assert_eq!(fm.functions[0].cyclomatic_complexity, 2);
}

#[test]
fn java_source_parses_end_to_end() {
    let src = b"class A {\n    int f(int x) {\n        return x > 0 ? 1 : 2;\n    }\n}\n".to_vec();
    let fm = analyze_source("src/A.java", "java", &src).expect("supported extension");
    assert!(fm.parse_success);
    assert_eq!(fm.language, SupportedLanguage::Java);
    assert_eq!(fm.class_count, 1);
    assert_eq!(fm.function_count, 1);
    assert_eq!(fm.functions[0].name, "f");
    assert_eq!(fm.functions[0].parameter_count, 1);
    assert_eq!(fm.functions[0].cyclomatic_complexity, 2);
}

#[test]
fn a_small_scan_rolls_up_into_one_report() {
    let py = analyze_source(
        "a.py",
        "py",
        &b"def f(x):\n    if x and x:\n        return 1\n    return 0\n".to_vec(),
    )
    .expect("supported");
    let rs = analyze_source("b.rs", "rs", &b"fn g() {\n    if true {}\n}\n".to_vec())
        .expect("supported");
    let report = aggregate_report("demo", &vec![py, rs]);
    assert_eq!(report.repository, "demo");
    assert_eq!(report.summary.total_files, 2);
    assert_eq!(report.summary.total_functions, 2);
    assert_eq!(report.summary.languages.len(), 2);
    assert_eq!(report.summary.parse_success_rate_tenths, 1000);
    // cyclomatics [3, 2]: average 2.5, two languages, two functions.
    // 2.5 x 1.2 x 1.02 = 3.06.
    assert_eq!(report.summary.complexity_score_centi, 306);
    assert_eq!(report.summary.complexity_bucket, "simple");
    assert_eq!(report.distribution.low, 2);
    assert_eq!(report.top_complex_functions.len(), 2);
    assert_eq!(report.top_complex_functions[0].name, "f");
    assert_eq!(report.top_complex_functions[0].cyclomatic_complexity, 3);
    assert_eq!(report.top_complex_functions[1].name, "g");
}

#[test]
fn output_names_join_the_run_parts() {
    let name = complexity_core::agent::output_file_name(
        "20240101-120000",
        "demo",
        "openai",
        "gpt-4o:mini",
        ".md",
    );
    assert_eq!(name, "20240101-120000-demo-openai-gpt-4o-mini.md");
}
