//! The text of the report: the listing of a record and the lines of its
//! cover, coloured for the terminal.
//!
//! The colours come from `colored`, which decides by the terminal and the
//! variables of the process whether it switches them on. So the layout is
//! stated exactly, over the entries as they came back from painting, and of
//! the painting only what holds whether the colours are on or off.

use crate::cover::{cover_report, test_cover, MatchEntry};
use crate::source::{Source, SourceView};
use crate::text::contains;
use colored::Colorize;
use vstd::prelude::*;
use vstd::string::StringExecFns;

verus! {

/// The head of the listing, and of its list of functions.
pub open spec fn functions_heading() -> Seq<char> {
    "Source:\n  Functions:\n"@
}

/// The head of the list of tests.
pub open spec fn tests_heading() -> Seq<char> {
    "  Tests:\n"@
}

/// What an entry of a list is indented by.
pub open spec fn indent() -> Seq<char> {
    "    "@
}

/// What ends the line of an entry.
pub open spec fn entry_end() -> Seq<char> {
    ",\n"@
}

/// What stands between a function and what is said of its cover.
pub open spec fn arrow() -> Seq<char> {
    " -> "@
}

/// What stands on the line of a function that no test covers.
pub open spec fn miss_mark() -> Seq<char> {
    "X"@
}

/// The escape sequence that switches the colours of the terminal off.
pub open spec fn colour_off() -> Seq<char> {
    "\x1B[0m"@
}

/// The colours of the report.
#[derive(Clone, Copy, Debug, PartialEq, Eq)]
pub enum Tint {
    /// The colour of a function in the listing.
    Blue,
    /// The colour of a test in the listing.
    Purple,
    /// The colour of a test that covers a function.
    Green,
    /// The colour of the mark of a function without a test.
    Red,
}

impl Tint {
    /// The escape sequence that switches the colour on.
    pub open spec fn on(self) -> Seq<char> {
        match self {
            Tint::Blue => "\x1B[34m"@,
            Tint::Purple => "\x1B[35m"@,
            Tint::Green => "\x1B[32m"@,
            Tint::Red => "\x1B[31m"@,
        }
    }
}

/// `out` is `text` in the colour that `on` switches on, as it is written where
/// the colours are in use, or `text` as it is, as it is written where they
/// are not. Of a text that holds the sequence that switches the colours off
/// nothing is said.
pub open spec fn painted(text: Seq<char>, on: Seq<char>, out: Seq<char>) -> bool {
    contains(text, colour_off()) || out == text || out == on + text + colour_off()
}

/// `outs` holds the texts of `texts`, one for one, each painted.
pub open spec fn all_painted(texts: Seq<Seq<char>>, on: Seq<char>, outs: Seq<Seq<char>>) -> bool {
    &&& outs.len() == texts.len()
    &&& forall|i: int| 0 <= i < texts.len() ==> painted(texts[i], on, #[trigger] outs[i])
}

/// `line` shows `entry` of the report of `record`: the function as it is, the
/// arrow, and the test that covers it in green, or the mark in red.
pub open spec fn shows(record: SourceView, entry: MatchEntry, line: Seq<char>) -> bool {
    exists|mark: Seq<char>|
        {
            &&& #[trigger] cover_line(record.functions[entry.function as int], mark) == line
            &&& match entry.test {
                Some(t) => painted(record.tests[t as int], Tint::Green.on(), mark),
                None => painted(miss_mark(), Tint::Red.on(), mark),
            }
        }
}

/// `text` is the listing of `record` with its functions painted blue and its
/// tests painted purple.
pub open spec fn lists(record: SourceView, text: Seq<char>) -> bool {
    exists|functions: Seq<Seq<char>>, tests: Seq<Seq<char>>|
        {
            &&& all_painted(record.functions, Tint::Blue.on(), functions)
            &&& all_painted(record.tests, Tint::Purple.on(), tests)
            &&& #[trigger] listing(functions, tests) == text
        }
}

/// The names as a list, one indented line for each, a comma behind it.
pub open spec fn entries(names: Seq<Seq<char>>) -> Seq<char>
    decreases names.len(),
{
    if names.len() == 0 {
        Seq::empty()
    } else {
        entries(names.drop_last()) + indent() + names.last() + entry_end()
    }
}

/// The listing of a record: the functions under their heading, the tests
/// under theirs.
pub open spec fn listing(functions: Seq<Seq<char>>, tests: Seq<Seq<char>>) -> Seq<char> {
    functions_heading() + entries(functions) + tests_heading() + entries(tests)
}

/// One line of the cover report: the function, the arrow, and the mark.
pub open spec fn cover_line(function: Seq<char>, mark: Seq<char>) -> Seq<char> {
    function + arrow() + mark
}

/// `Colorize::blue` of `colored` on a `&str`, and `to_string` on what it gives.
/// The crate writes the text between the sequence for blue and the sequence
/// that switches colours off, or the text alone where its switch (the
/// terminal, the variables of the process, an override) is off; inside a text
/// that holds the closing sequence it writes more, of which this says nothing.
#[verifier::external_body]
fn paint_blue(text: &str) -> (out: String)
    ensures
        painted(text@, Tint::Blue.on(), out@),
{
    text.blue().to_string()
}

/// `Colorize::purple` of `colored` on a `&str`, and `to_string` on what it
/// gives: as for blue, with the sequence for magenta, which is the crate's
/// purple.
#[verifier::external_body]
fn paint_purple(text: &str) -> (out: String)
    ensures
        painted(text@, Tint::Purple.on(), out@),
{
    text.purple().to_string()
}

/// `Colorize::green` of `colored` on a `&str`, and `to_string` on what it
/// gives: as for blue, with the sequence for green.
#[verifier::external_body]
fn paint_green(text: &str) -> (out: String)
    ensures
        painted(text@, Tint::Green.on(), out@),
{
    text.green().to_string()
}

/// `Colorize::red` of `colored` on a `&str`, and `to_string` on what it gives:
/// as for blue, with the sequence for red.
#[verifier::external_body]
fn paint_red(text: &str) -> (out: String)
    ensures
        painted(text@, Tint::Red.on(), out@),
{
    text.red().to_string()
}

/// `text` for the terminal in the colour `tint`. Whether the colour is
/// switched on is for the terminal and the variables of the process to say.
pub fn paint(text: &str, tint: Tint) -> (out: String)
    ensures
        painted(text@, tint.on(), out@),
{
    match tint {
        Tint::Blue => paint_blue(text),
        Tint::Purple => paint_purple(text),
        Tint::Green => paint_green(text),
        Tint::Red => paint_red(text),
    }
}

/// Every text of `texts` in the colour `tint`.
fn paint_all(texts: &Vec<String>, tint: Tint) -> (outs: Vec<String>)
    ensures
        all_painted(texts.deep_view(), tint.on(), outs.deep_view()),
{
    let mut outs: Vec<String> = Vec::new();
    let mut i: usize = 0;
    while i < texts.len()
        invariant
            i <= texts.len(),
            outs@.len() == i,
            forall|k: int| 0 <= k < i ==> painted(texts@[k]@, tint.on(), (#[trigger] outs@[k])@),
        decreases texts.len() - i,
    {
        outs.push(paint(texts[i].as_str(), tint));
        i += 1;
    }
    assert forall|k: int| 0 <= k < texts.deep_view().len() implies painted(
        texts.deep_view()[k],
        tint.on(),
        #[trigger] outs.deep_view()[k],
    ) by {
        assert(outs.deep_view()[k] == outs@[k]@);
    }
    outs
}

/// Adds the list of `names` to the end of `text`.
fn append_entries(text: &mut String, names: &[String])
    ensures
        final(text)@ == old(text)@ + entries(names.deep_view()),
{
    let ghost all = names.deep_view();
    let mut i: usize = 0;
    assert(all.take(0) =~= Seq::empty());
    while i < names.len()
        invariant
            i <= names.len(),
            all == names.deep_view(),
            text@ == old(text)@ + entries(all.take(i as int)),
        decreases names.len() - i,
    {
        proof {
            assert(all.take(i + 1).drop_last() =~= all.take(i as int));
            assert(all.take(i + 1).last() == names[i as int]@);
        }
        text.append("    ");
        text.append(names[i].as_str());
        text.append(",\n");
        i += 1;
    }
    assert(all.take(all.len() as int) =~= all);
}

/// The listing of the functions and tests of a record, each entry as it is
/// handed in.
pub fn format_source(functions: &[String], tests: &[String]) -> (text: String)
    ensures
        text@ == listing(functions.deep_view(), tests.deep_view()),
{
    let mut text = String::from_str("Source:\n  Functions:\n");
    append_entries(&mut text, functions);
    text.append("  Tests:\n");
    append_entries(&mut text, tests);
    text
}

/// The line that shows `function` with `mark`: the test that covers it, or
/// the sign that none does.
pub fn format_cover(function: &str, mark: &str) -> (text: String)
    ensures
        text@ == cover_line(function@, mark@),
{
    let mut text = String::from_str(function);
    text.append(" -> ");
    text.append(mark);
    text
}

impl Source {
    /// The listing of the record for the terminal: the functions in blue, the
    /// tests in purple.
    pub fn render(&self) -> (text: String)
        ensures
            lists(self@, text@),
    {
        let functions = paint_all(&self.functions, Tint::Blue);
        let tests = paint_all(&self.tests, Tint::Purple);
        let text = format_source(functions.as_slice(), tests.as_slice());
        assert(listing(functions.deep_view(), tests.deep_view()) == text@);
        text
    }
}

/// The cover report of the record for the terminal, line by line: each
/// function with the test that covers it in green, and behind them each
/// function that no test covers with the mark in red.
pub fn show_test_cover(source: &Source) -> (lines: Vec<String>)
    ensures
        lines@.len() == cover_report(source@.functions, source@.tests).len(),
        forall|k: int|
            0 <= k < lines@.len() ==> shows(
                source@,
                cover_report(source@.functions, source@.tests)[k],
                (#[trigger] lines@[k])@,
            ),
{
    let report = test_cover(source);
    let mut lines: Vec<String> = Vec::new();
    let mut k: usize = 0;
    while k < report.len()
        invariant
            k <= report.len(),
            lines@.len() == k,
            report@ == cover_report(source@.functions, source@.tests),
            forall|j: int|
                0 <= j < report@.len() ==> crate::cover::line_holds(
                    source@.functions,
                    source@.tests,
                    #[trigger] report@[j],
                ),
            forall|j: int| 0 <= j < k ==> shows(source@, report@[j], (#[trigger] lines@[j])@),
        decreases report.len() - k,
    {
        let entry = report[k];
        assert(crate::cover::line_holds(source@.functions, source@.tests, report@[k as int]));
        let function = source.functions[entry.function].as_str();
        let mark = match entry.test {
            Some(t) => paint(source.tests[t].as_str(), Tint::Green),
            None => paint("X", Tint::Red),
        };
        let line = format_cover(function, mark.as_str());
        assert(cover_line(source@.functions[entry.function as int], mark@) == line@);
        lines.push(line);
        k += 1;
    }
    lines
}

} // verus!
