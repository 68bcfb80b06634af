use covers::_function_to_test;
use covers::classify::{classify_line, isolate_functions_and_tests, Finding};
use covers::cover::test_cover;
use covers::score::calc_final_score;
use covers::source::{Settings, Source};
use covers::walk::{is_source_path, walk};

fn plain() -> Settings {
    Settings {
        only_with_returns: false,
        full_line: false,
    }
}

fn scan(text: &str, settings: &Settings) -> Source {
    let mut source = Source::new();
    isolate_functions_and_tests(text, &mut source, settings);
    source
}

fn function(name: &str) -> Finding {
    Finding::Function(name.to_string())
}

fn test(name: &str) -> Finding {
    Finding::Test(name.to_string())
}

#[test]
fn _function_to_test_test() {
    assert!(_function_to_test() == 0);
}

#[test]
fn isolate_functions_and_tests_test() {
    const TEST_CODE: &str = "\
        fn this_is_some_code() { return 0.unwrap(); }
        \
        #[test]
        fn this_is_some_code_test() {
            assert!(this_is_some_code() == 0);
        }";

    let mut source = Source {
        functions: Vec::<String>::new(),
        tests: Vec::<String>::new(),
        unwraps: 0,
    };

    isolate_functions_and_tests(
        &TEST_CODE.to_string(),
        &mut source,
        &Settings {
            only_with_returns: false,
            full_line: false,
        },
    );
    assert_eq!(source.functions.len(), 1);
    assert_eq!(source.tests.len(), 1);

    assert_eq!(source.unwraps, 1);

    assert_eq!(source.functions, vec!["fn this_is_some_code"]);
    assert_eq!(source.tests, vec!["fn this_is_some_code_test"]);
}

#[test]
fn single_file_scores_one() {
    let text = "fn this_is_some_code() { return 0.unwrap(); }\n#[test]\nfn this_is_some_code_test() { assert!(this_is_some_code() == 0); }";
    let source = walk(&[text.to_string()], &Settings::default());
    assert_eq!(source.functions, vec!["fn this_is_some_code"]);
    assert_eq!(source.tests, vec!["fn this_is_some_code_test"]);
    assert_eq!(source.unwraps, 1);
    let ratio = source.tests.len() as f64 / source.functions.len() as f64;
    assert_eq!(ratio, 1.0);
    let uncovered = (100.0 - ratio * 100.0) as i32;
    assert_eq!(calc_final_score(source.unwraps, uncovered), Some(1));
}

#[test]
fn new_record_is_empty() {
    let source = Source::new();
    assert!(source.functions.is_empty());
    assert!(source.tests.is_empty());
    assert_eq!(source.unwraps, 0);
}

#[test]
fn default_settings_are_off() {
    let settings = Settings::default();
    assert!(!settings.only_with_returns);
    assert!(!settings.full_line);
}

#[test]
fn excluded_line_is_never_recorded() {
    let line = "fn looks_like_code() { // exactly this";
    assert_eq!(classify_line("", line, &plain()), Finding::Skipped);
    assert_eq!(classify_line("#[test]", line, &plain()), Finding::Skipped);
    let whole = Settings {
        only_with_returns: true,
        full_line: true,
    };
    assert_eq!(classify_line("#[test]", line, &whole), Finding::Skipped);
    let source = scan("#[test]\nfn a() { // exactly this\nfn b() {}", &plain());
    assert_eq!(source.functions, vec!["fn b"]);
    assert!(source.tests.is_empty());
}

#[test]
fn line_without_keyword_or_parenthesis_is_skipped() {
    assert_eq!(classify_line("", "let x = call(1);", &plain()), Finding::Skipped);
    assert_eq!(classify_line("", "fn no_parenthesis", &plain()), Finding::Skipped);
    assert_eq!(classify_line("", "fn(x)", &plain()), Finding::Skipped);
    assert_eq!(classify_line("", "", &plain()), Finding::Skipped);
}

#[test]
fn annotated_declaration_is_a_test() {
    for only_with_returns in [false, true] {
        let settings = Settings {
            only_with_returns,
            full_line: false,
        };
        assert_eq!(
            classify_line("#[test]", "fn checks() {", &settings),
            test("fn checks")
        );
        assert_eq!(
            classify_line("    #[test]", "    fn checks() {", &settings),
            test("fn checks")
        );
        assert_eq!(
            classify_line("#[test] // soon", "fn checks() {", &settings),
            test("fn checks")
        );
    }
}

#[test]
fn only_the_line_in_front_makes_a_test() {
    let source = scan("#[test]\n\nfn far_away() {}", &plain());
    assert_eq!(source.functions, vec!["fn far_away"]);
    assert!(source.tests.is_empty());
    let source = scan("#[test]\n  pub fn hidden() {}\nfn after() {}", &plain());
    assert_eq!(source.functions, vec!["fn after"]);
    assert!(source.tests.is_empty());
}

#[test]
fn return_filter_drops_functions_only() {
    let settings = Settings {
        only_with_returns: true,
        full_line: false,
    };
    let text = "fn plain() {}\nfn answer() -> i64 { 42 }\n#[test]\nfn plain_test() {}\n#[test]\nfn answer_test() -> bool { true }";
    let source = scan(text, &settings);
    assert_eq!(source.functions, vec!["fn answer"]);
    assert_eq!(source.tests, vec!["fn plain_test", "fn answer_test"]);
    let source = scan(text, &plain());
    assert_eq!(source.functions, vec!["fn plain", "fn answer"]);
    assert_eq!(source.tests, vec!["fn plain_test", "fn answer_test"]);
}

#[test]
fn return_filter_reads_the_whole_line() {
    let settings = Settings {
        only_with_returns: true,
        full_line: false,
    };
    assert_eq!(
        classify_line("", "  fn late() {} // ->", &settings),
        function("fn late")
    );
    assert_eq!(classify_line("", "fn none() {}", &settings), Finding::Skipped);
}

#[test]
fn full_line_keeps_the_trimmed_line() {
    let settings = Settings {
        only_with_returns: false,
        full_line: true,
    };
    assert_eq!(
        classify_line("", "    fn whole(a: u8) -> u8 { a }", &settings),
        function("fn whole(a: u8) -> u8 { a }")
    );
    assert_eq!(
        classify_line("#[test]", "\t fn whole_test() {", &settings),
        test("fn whole_test() {")
    );
    assert_eq!(
        classify_line("", "fn keeps_the_end()  \r", &settings),
        function("fn keeps_the_end()  \r")
    );
}

#[test]
fn short_signature_ends_before_the_parenthesis() {
    assert_eq!(
        classify_line("", "  fn first(a: (u8, u8)) -> (u8, u8) {", &plain()),
        function("fn first")
    );
    assert_eq!(
        classify_line("", "fn spaced (a: u8) {", &plain()),
        function("fn spaced ")
    );
    assert_eq!(
        classify_line("", "fn generic<T>(a: T) {", &plain()),
        function("fn generic<T>")
    );
}

#[test]
fn signature_must_begin_with_the_keyword() {
    assert_eq!(classify_line("", "pub fn open() {}", &plain()), Finding::Skipped);
    assert_eq!(classify_line("", "call(fn x)", &plain()), Finding::Skipped);
    assert_eq!(classify_line("", "(fn x", &plain()), Finding::Skipped);
    assert_eq!(classify_line("", "f(fn x", &plain()), Finding::Skipped);
    assert_eq!(classify_line("", "é(fn x", &plain()), Finding::Skipped);
    assert_eq!(
        classify_line("", "fnord(fn x) {}", &plain()),
        function("fnord")
    );
    let whole = Settings {
        only_with_returns: false,
        full_line: true,
    };
    assert_eq!(classify_line("", "pub fn open() {}", &whole), Finding::Skipped);
}

#[test]
fn unicode_white_space_is_trimmed() {
    assert_eq!(
        classify_line("", "\u{a0}\u{2003}\u{3000}fn wide() {}", &plain()),
        function("fn wide")
    );
    assert_eq!(
        classify_line("", "\u{200b}fn zero_width() {}", &plain()),
        Finding::Skipped
    );
}

#[test]
fn text_beyond_ascii_is_kept() {
    let source = scan("fn größe(ä: u8) {}\n#[test]\nfn größe_test() {}", &plain());
    assert_eq!(source.functions, vec!["fn größe"]);
    assert_eq!(source.tests, vec!["fn größe_test"]);
}

#[test]
fn lines_end_at_line_feeds_only() {
    let source = scan("#[test]\r\nfn windows() {}\r\nfn next() {}", &plain());
    assert_eq!(source.tests, vec!["fn windows"]);
    assert_eq!(source.functions, vec!["fn next"]);
    let source = scan("#[test]\rfn one_line() {}", &plain());
    assert!(source.tests.is_empty());
    assert!(source.functions.is_empty());
}

#[test]
fn empty_text_holds_nothing() {
    let source = scan("", &plain());
    assert!(source.functions.is_empty());
    assert!(source.tests.is_empty());
    assert_eq!(source.unwraps, 0);
    let source = scan("\n\n\n", &plain());
    assert!(source.functions.is_empty());
    assert!(source.tests.is_empty());
}

#[test]
fn scan_adds_behind_what_is_there() {
    let mut source = Source {
        functions: vec!["fn old".to_string()],
        tests: vec!["fn old_test".to_string()],
        unwraps: 7,
    };
    isolate_functions_and_tests("fn new() {}\n#[test]\nfn new_test() {}", &mut source, &plain());
    assert_eq!(source.functions, vec!["fn old", "fn new"]);
    assert_eq!(source.tests, vec!["fn old_test", "fn new_test"]);
    assert_eq!(source.unwraps, 0);
}

#[test]
fn risk_markers_are_counted() {
    assert_eq!(scan("a.unwrap().unwrap()", &plain()).unwraps, 2);
    assert_eq!(scan("unwrap()unwrap()unwrap()", &plain()).unwraps, 3);
    assert_eq!(scan("unwrap ()\nunwrap(\n)", &plain()).unwraps, 0);
    assert_eq!(scan("x.unwrap_or(1); y.unwrap( )", &plain()).unwraps, 0);
    assert_eq!(scan("// fn f() exactly this unwrap()", &plain()).unwraps, 1);
}

#[test]
fn last_file_sets_the_count() {
    let first = "fn a() { x.unwrap(); y.unwrap(); }".to_string();
    let second = "fn b() {}".to_string();
    let source = walk(&[first.clone(), second.clone()], &plain());
    assert_eq!(source.unwraps, 0);
    assert_eq!(source.functions, vec!["fn a", "fn b"]);
    let source = walk(&[second, first], &plain());
    assert_eq!(source.unwraps, 2);
    assert_eq!(source.functions, vec!["fn b", "fn a"]);
}

#[test]
fn walk_keeps_the_order_of_files_and_lines() {
    let texts = vec![
        "fn a() {}\n#[test]\nfn a_test() {}\nfn b() {}".to_string(),
        String::new(),
        "#[test]\nfn c_test() {}\nfn c() {}".to_string(),
    ];
    let source = walk(&texts, &plain());
    assert_eq!(source.functions, vec!["fn a", "fn b", "fn c"]);
    assert_eq!(source.tests, vec!["fn a_test", "fn c_test"]);
}

#[test]
fn walk_of_nothing_is_empty() {
    let source = walk(&[], &plain());
    assert!(source.functions.is_empty());
    assert!(source.tests.is_empty());
    assert_eq!(source.unwraps, 0);
}

#[test]
fn walk_is_one_scan_after_the_other() {
    let texts = vec![
        "fn a() { a.unwrap() }".to_string(),
        "#[test]\nfn a_test() {}\nfn b() -> u8 { b.unwrap() }".to_string(),
    ];
    let settings = Settings {
        only_with_returns: true,
        full_line: true,
    };
    let walked = walk(&texts, &settings);
    let mut source = Source::new();
    for text in &texts {
        isolate_functions_and_tests(text, &mut source, &settings);
    }
    assert_eq!(walked.functions, source.functions);
    assert_eq!(walked.tests, source.tests);
    assert_eq!(walked.unwraps, source.unwraps);
    assert_eq!(walked.functions, vec!["fn b() -> u8 { b.unwrap() }"]);
}

#[test]
fn source_paths_hold_the_suffix() {
    assert!(is_source_path("./main.rs"));
    assert!(is_source_path("./notes.rs.bak"));
    assert!(is_source_path("./.rsync"));
    assert!(!is_source_path("./Cargo.toml"));
    assert!(!is_source_path("./rs"));
    assert!(!is_source_path(""));
}

#[test]
fn ratio_does_not_depend_on_matches() {
    let source = scan("fn alpha() {}\n#[test]\nfn beta() {}", &plain());
    assert_eq!(source.functions, vec!["fn alpha"]);
    assert_eq!(source.tests, vec!["fn beta"]);
    let report = test_cover(&source);
    assert_eq!(report.len(), 1);
    assert!(!report[0].covered());
    let ratio = source.tests.len() as f64 / source.functions.len() as f64;
    assert_eq!(ratio, 1.0);
}
