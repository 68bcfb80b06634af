use covers::classify::isolate_functions_and_tests;
use covers::cover::{test_cover, MatchEntry};
use covers::source::{Settings, Source};

const PIECES: [&str; 24] = [
    "fn ", "fn", "f", "n", " ", "  ", "\t", "\u{a0}", "(", ")", "#[test]", "#[test", "->", "-", ">",
    "exactly this", "exactly", "pub ", "name", "é", "unwrap()", "unwrap", "()", "{ }",
];

struct Dice(u64);

impl Dice {
    fn roll(&mut self, sides: usize) -> usize {
        self.0 = self
            .0
            .wrapping_mul(6364136223846793005)
            .wrapping_add(1442695040888963407);
        ((self.0 >> 33) as usize) % sides
    }

    fn line(&mut self) -> String {
        let mut line = String::new();
        line.push_str(["", "", " ", "\t  ", "\u{a0}", "\u{200b}"][self.roll(6)]);
        line.push_str(["", "fn ", "fn ", "fn", "pub fn ", "#[test]"][self.roll(6)]);
        for _ in 0..self.roll(7) {
            line.push_str(PIECES[self.roll(PIECES.len())]);
        }
        line
    }

    fn text(&mut self) -> String {
        let mut lines = Vec::new();
        for _ in 0..self.roll(6) {
            lines.push(self.line());
        }
        lines.join("\n")
    }
}

fn by_std(text: &str, source: &mut Source, settings: &Settings) {
    source.unwraps = text.matches("unwrap()").count();
    let mut previous = "";
    for line in text.split('\n') {
        let in_front = previous;
        previous = line;
        if !(line.contains("fn ") && line.contains('(') && !line.contains("exactly this")) {
            continue;
        }
        let trimmed = line.trim_start();
        let name = if settings.full_line {
            trimmed
        } else {
            trimmed.split('(').next().unwrap_or("")
        };
        if !name.starts_with("fn") {
            continue;
        }
        if in_front.trim_start().contains("#[test]") {
            source.tests.push(name.to_string());
        } else if !settings.only_with_returns || line.contains("->") {
            source.functions.push(name.to_string());
        }
    }
}

fn cover_by_std(source: &Source) -> Vec<MatchEntry> {
    let mut report = Vec::new();
    let mut found = Vec::new();
    for (t, test) in source.tests.iter().enumerate() {
        for (f, function) in source.functions.iter().enumerate() {
            if test.contains(function.as_str()) {
                report.push(MatchEntry {
                    function: f,
                    test: Some(t),
                });
                found.push(f);
            }
        }
    }
    for f in 0..source.functions.len() {
        if !found.contains(&f) {
            report.push(MatchEntry {
                function: f,
                test: None,
            });
        }
    }
    report
}

#[test]
fn scan_agrees_with_std_on_many_texts() {
    let mut dice = Dice(2024);
    let mut declarations = 0;
    for round in 0..3000 {
        let text = dice.text();
        let settings = Settings {
            only_with_returns: round % 2 == 1,
            full_line: round % 4 >= 2,
        };
        let mut source = Source::new();
        let mut wanted = Source::new();
        isolate_functions_and_tests(&text, &mut source, &settings);
        by_std(&text, &mut wanted, &settings);
        assert_eq!(source.functions, wanted.functions, "{text:?}");
        assert_eq!(source.tests, wanted.tests, "{text:?}");
        assert_eq!(source.unwraps, wanted.unwraps, "{text:?}");
        declarations += source.functions.len() + source.tests.len();
    }
    assert!(declarations > 100);
}

#[test]
fn records_grow_alike_over_many_texts() {
    let mut dice = Dice(7);
    let settings = Settings::default();
    let mut source = Source::new();
    let mut wanted = Source::new();
    for _ in 0..300 {
        let text = dice.text();
        isolate_functions_and_tests(&text, &mut source, &settings);
        by_std(&text, &mut wanted, &settings);
        assert_eq!(source.unwraps, wanted.unwraps);
    }
    assert_eq!(source.functions, wanted.functions);
    assert_eq!(source.tests, wanted.tests);
    assert!(!source.functions.is_empty());
}

#[test]
fn cover_agrees_with_std_on_many_records() {
    let names = ["fn a", "fn ab", "fn b", "fn a_test", "fn ab_test", "fn", "", "fn b "];
    let mut dice = Dice(99);
    let mut lines = 0;
    for _ in 0..2000 {
        let mut source = Source::new();
        for _ in 0..dice.roll(5) {
            source.functions.push(names[dice.roll(names.len())].to_string());
        }
        for _ in 0..dice.roll(5) {
            source.tests.push(names[dice.roll(names.len())].to_string());
        }
        let report = test_cover(&source);
        assert_eq!(report, cover_by_std(&source));
        lines += report.len();
    }
    assert!(lines > 1000);
}
