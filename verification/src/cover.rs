//! The coverage matcher: which functions a test seems to speak of.
//!
//! A test covers a function if the signature of the test holds the signature
//! of the function. Nothing is known of scopes: a test whose name happens to
//! hold the name of another function covers that one too.

use crate::source::Source;
use crate::text::{contains, includes, to_chars};
use vstd::prelude::*;

verus! {

/// One line of the report: a function, and a test that covers it or none.
#[derive(Clone, Copy, Debug, PartialEq, Eq)]
pub struct MatchEntry {
    /// Where the function stands among the functions of the record.
    pub function: usize,
    /// Where the covering test stands among the tests of the record; `None`
    /// on the line of a function that no test covers.
    pub test: Option<usize>,
}

impl MatchEntry {
    /// Whether the line shows the function as covered.
    pub open spec fn is_covered(&self) -> bool {
        self.test is Some
    }

    /// Whether the line shows the function as covered.
    #[verifier::when_used_as_spec(is_covered)]
    pub fn covered(&self) -> (covered: bool)
        ensures
            covered == self.is_covered(),
    {
        self.test.is_some()
    }
}

/// The line that pairs function `function` with test `test`.
pub open spec fn matched(function: int, test: int) -> MatchEntry {
    MatchEntry { function: function as usize, test: Some(test as usize) }
}

/// The line that shows function `function` without a test.
pub open spec fn unmatched(function: int) -> MatchEntry {
    MatchEntry { function: function as usize, test: None }
}

/// Some test holds the signature `function`.
pub open spec fn has_cover(tests: Seq<Seq<char>>, function: Seq<char>) -> bool {
    exists|t: int| 0 <= t < tests.len() && contains(#[trigger] tests[t], function)
}

/// The lines of one test: one for each of the first `upto` functions whose
/// signature the test holds, in the order of the functions.
pub open spec fn covered_by(
    functions: Seq<Seq<char>>,
    test: Seq<char>,
    t: int,
    upto: int,
) -> Seq<MatchEntry>
    decreases upto,
{
    if upto <= 0 {
        Seq::empty()
    } else {
        let earlier = covered_by(functions, test, t, upto - 1);
        if contains(test, functions[upto - 1]) {
            earlier.push(matched(upto - 1, t))
        } else {
            earlier
        }
    }
}

/// The lines of the first `upto` tests, test by test.
pub open spec fn covered_lines(
    functions: Seq<Seq<char>>,
    tests: Seq<Seq<char>>,
    upto: int,
) -> Seq<MatchEntry>
    decreases upto,
{
    if upto <= 0 {
        Seq::empty()
    } else {
        covered_lines(functions, tests, upto - 1) + covered_by(
            functions,
            tests[upto - 1],
            upto - 1,
            functions.len() as int,
        )
    }
}

/// One line for each of the first `upto` functions that no test covers, in
/// the order of the functions.
pub open spec fn uncovered_lines(
    functions: Seq<Seq<char>>,
    tests: Seq<Seq<char>>,
    upto: int,
) -> Seq<MatchEntry>
    decreases upto,
{
    if upto <= 0 {
        Seq::empty()
    } else {
        let earlier = uncovered_lines(functions, tests, upto - 1);
        if has_cover(tests, functions[upto - 1]) {
            earlier
        } else {
            earlier.push(unmatched(upto - 1))
        }
    }
}

/// The report: for every test in order, a line for each function that it
/// covers, in the order of the functions; behind them a line for each function
/// that no test covers. A function that several tests cover has several lines.
pub open spec fn cover_report(functions: Seq<Seq<char>>, tests: Seq<Seq<char>>) -> Seq<MatchEntry> {
    covered_lines(functions, tests, tests.len() as int) + uncovered_lines(
        functions,
        tests,
        functions.len() as int,
    )
}

/// A line says what is so: its function is one of the functions; the test on
/// it, if there is one, is one of the tests and holds the signature of the
/// function; and a line without a test stands for a function that no test
/// covers.
pub open spec fn line_holds(
    functions: Seq<Seq<char>>,
    tests: Seq<Seq<char>>,
    line: MatchEntry,
) -> bool {
    &&& line.function < functions.len()
    &&& match line.test {
        Some(t) => t < tests.len() && contains(tests[t as int], functions[line.function as int]),
        None => !has_cover(tests, functions[line.function as int]),
    }
}

/// Some line of `report` speaks of function `function`.
pub open spec fn is_listed(report: Seq<MatchEntry>, function: int) -> bool {
    exists|k: int| 0 <= k < report.len() && (#[trigger] report[k]).function == function
}

/// The lines of one test pair it with functions that it covers.
proof fn lemma_covered_by_holds(
    functions: Seq<Seq<char>>,
    tests: Seq<Seq<char>>,
    t: int,
    upto: int,
)
    requires
        0 <= t < tests.len() <= usize::MAX,
        0 <= upto <= functions.len() <= usize::MAX,
    ensures
        forall|k: int|
            0 <= k < covered_by(functions, tests[t], t, upto).len() ==> line_holds(
                functions,
                tests,
                #[trigger] covered_by(functions, tests[t], t, upto)[k],
            ),
        forall|f: int|
            0 <= f < upto && contains(tests[t], functions[f]) ==> #[trigger] is_listed(
                covered_by(functions, tests[t], t, upto),
                f,
            ),
    decreases upto,
{
    if upto > 0 {
        lemma_covered_by_holds(functions, tests, t, upto - 1);
        let earlier = covered_by(functions, tests[t], t, upto - 1);
        let lines = covered_by(functions, tests[t], t, upto);
        assert forall|f: int| 0 <= f < upto && contains(tests[t], functions[f]) implies is_listed(
            lines,
            f,
        ) by {
            if f < upto - 1 {
                assert(is_listed(earlier, f));
                let k = choose|k: int| 0 <= k < earlier.len() && (#[trigger] earlier[k]).function == f;
                assert(lines[k].function == f);
            } else {
                assert(lines[lines.len() - 1].function == f);
            }
        }
    }
}

/// The lines of the tests pair tests with functions that they cover.
proof fn lemma_covered_lines_hold(functions: Seq<Seq<char>>, tests: Seq<Seq<char>>, upto: int)
    requires
        0 <= upto <= tests.len() <= usize::MAX,
        functions.len() <= usize::MAX,
    ensures
        forall|k: int|
            0 <= k < covered_lines(functions, tests, upto).len() ==> line_holds(
                functions,
                tests,
                #[trigger] covered_lines(functions, tests, upto)[k],
            ),
        forall|f: int, t: int|
            0 <= f < functions.len() && 0 <= t < upto && contains(
                #[trigger] tests[t],
                #[trigger] functions[f],
            ) ==> is_listed(covered_lines(functions, tests, upto), f),
    decreases upto,
{
    if upto > 0 {
        lemma_covered_lines_hold(functions, tests, upto - 1);
        lemma_covered_by_holds(functions, tests, upto - 1, functions.len() as int);
        let earlier = covered_lines(functions, tests, upto - 1);
        let last = covered_by(functions, tests[upto - 1], upto - 1, functions.len() as int);
        let lines = covered_lines(functions, tests, upto);
        assert forall|f: int, t: int|
            0 <= f < functions.len() && 0 <= t < upto && contains(
                #[trigger] tests[t],
                #[trigger] functions[f],
            ) implies is_listed(lines, f) by {
            if t < upto - 1 {
                assert(is_listed(earlier, f));
                let k = choose|k: int| 0 <= k < earlier.len() && (#[trigger] earlier[k]).function == f;
                assert(lines[k].function == f);
            } else {
                assert(is_listed(last, f));
                let k = choose|k: int| 0 <= k < last.len() && (#[trigger] last[k]).function == f;
                assert(lines[earlier.len() + k].function == f);
            }
        }
    }
}

/// The lines without a test stand for the functions that no test covers.
proof fn lemma_uncovered_lines_hold(functions: Seq<Seq<char>>, tests: Seq<Seq<char>>, upto: int)
    requires
        0 <= upto <= functions.len() <= usize::MAX,
    ensures
        forall|k: int|
            0 <= k < uncovered_lines(functions, tests, upto).len() ==> line_holds(
                functions,
                tests,
                #[trigger] uncovered_lines(functions, tests, upto)[k],
            ),
        forall|f: int|
            0 <= f < upto && !has_cover(tests, functions[f]) ==> #[trigger] is_listed(
                uncovered_lines(functions, tests, upto),
                f,
            ),
    decreases upto,
{
    if upto > 0 {
        lemma_uncovered_lines_hold(functions, tests, upto - 1);
        let earlier = uncovered_lines(functions, tests, upto - 1);
        let lines = uncovered_lines(functions, tests, upto);
        assert forall|f: int| 0 <= f < upto && !has_cover(tests, functions[f]) implies is_listed(
            lines,
            f,
        ) by {
            if f < upto - 1 {
                assert(is_listed(earlier, f));
                let k = choose|k: int| 0 <= k < earlier.len() && (#[trigger] earlier[k]).function == f;
                assert(lines[k].function == f);
            } else {
                assert(lines[lines.len() - 1].function == f);
            }
        }
    }
}

/// Every line of the report says what is so, and every function has a line:
/// one for each test that covers it, or one that shows it without a test.
pub proof fn lemma_report_holds(functions: Seq<Seq<char>>, tests: Seq<Seq<char>>)
    requires
        functions.len() <= usize::MAX,
        tests.len() <= usize::MAX,
    ensures
        forall|k: int|
            0 <= k < cover_report(functions, tests).len() ==> line_holds(
                functions,
                tests,
                #[trigger] cover_report(functions, tests)[k],
            ),
        forall|f: int|
            0 <= f < functions.len() ==> #[trigger] is_listed(cover_report(functions, tests), f),
{
    let covered = covered_lines(functions, tests, tests.len() as int);
    let uncovered = uncovered_lines(functions, tests, functions.len() as int);
    let report = cover_report(functions, tests);
    lemma_covered_lines_hold(functions, tests, tests.len() as int);
    lemma_uncovered_lines_hold(functions, tests, functions.len() as int);
    assert forall|f: int| 0 <= f < functions.len() implies is_listed(report, f) by {
        if has_cover(tests, functions[f]) {
            let t = choose|t: int| 0 <= t < tests.len() && contains(#[trigger] tests[t], functions[f]);
            assert(is_listed(covered, f));
            let k = choose|k: int| 0 <= k < covered.len() && (#[trigger] covered[k]).function == f;
            assert(report[k].function == f);
        } else {
            assert(is_listed(uncovered, f));
            let k = choose|k: int|
                0 <= k < uncovered.len() && (#[trigger] uncovered[k]).function == f;
            assert(report[covered.len() + k].function == f);
        }
    }
}

/// The report of one function and one test is one line: the pair where the
/// test covers the function, the function alone where it does not.
pub proof fn lemma_lone_pair(function: Seq<char>, test: Seq<char>)
    ensures
        cover_report(seq![function], seq![test]) == if contains(test, function) {
            seq![matched(0, 0)]
        } else {
            seq![unmatched(0)]
        },
{
    let functions = seq![function];
    let tests = seq![test];
    reveal_with_fuel(covered_by, 2);
    reveal_with_fuel(covered_lines, 2);
    reveal_with_fuel(uncovered_lines, 2);
    if contains(test, function) {
        assert(contains(tests[0], function));
        assert(cover_report(functions, tests) =~= seq![matched(0, 0)]);
    } else {
        assert(cover_report(functions, tests) =~= seq![unmatched(0)]);
    }
}

/// Some test among the first `upto` holds the signature `function`.
spec fn has_cover_among(tests: Seq<Seq<char>>, function: Seq<char>, upto: int) -> bool {
    exists|t: int| 0 <= t < upto && contains(#[trigger] tests[t], function)
}

/// The signatures as characters, one vector for each.
fn all_chars(names: &Vec<String>) -> (chars: Vec<Vec<char>>)
    ensures
        chars@.len() == names@.len(),
        forall|k: int| 0 <= k < chars@.len() ==> (#[trigger] chars@[k])@ == names@[k]@,
{
    let mut chars: Vec<Vec<char>> = Vec::new();
    let mut i: usize = 0;
    while i < names.len()
        invariant
            i <= names.len(),
            chars@.len() == i,
            forall|k: int| 0 <= k < i ==> (#[trigger] chars@[k])@ == names@[k]@,
        decreases names.len() - i,
    {
        chars.push(to_chars(names[i].as_str()));
        i += 1;
    }
    chars
}

/// Pairs the functions of the record with its tests and lists the outcome.
pub fn test_cover(source: &Source) -> (report: Vec<MatchEntry>)
    ensures
        report@ == cover_report(source@.functions, source@.tests),
        forall|k: int|
            0 <= k < report@.len() ==> line_holds(
                source@.functions,
                source@.tests,
                #[trigger] report@[k],
            ),
{
    let functions = all_chars(&source.functions);
    let ghost names = source@.functions;
    let ghost tests = source@.tests;
    let mut report: Vec<MatchEntry> = Vec::new();
    let mut seen: Vec<bool> = Vec::new();
    let mut f: usize = 0;
    while f < functions.len()
        invariant
            f <= functions.len(),
            seen@.len() == f,
            forall|k: int| 0 <= k < f ==> !seen@[k],
        decreases functions.len() - f,
    {
        seen.push(false);
        f += 1;
    }
    let mut t: usize = 0;
    while t < source.tests.len()
        invariant
            t <= source.tests.len(),
            names == source@.functions,
            tests == source@.tests,
            functions@.len() == names.len(),
            forall|k: int| 0 <= k < names.len() ==> (#[trigger] functions@[k])@ == names[k],
            seen@.len() == names.len(),
            forall|k: int|
                0 <= k < names.len() ==> seen@[k] == has_cover_among(
                    tests,
                    #[trigger] names[k],
                    t as int,
                ),
            report@ == covered_lines(names, tests, t as int),
        decreases source.tests.len() - t,
    {
        let test = to_chars(source.tests[t].as_str());
        let ghost done = report@;
        let mut f: usize = 0;
        while f < functions.len()
            invariant
                f <= functions.len(),
                t < tests.len(),
                test@ == tests[t as int],
                functions@.len() == names.len(),
                forall|k: int| 0 <= k < names.len() ==> (#[trigger] functions@[k])@ == names[k],
                seen@.len() == names.len(),
                forall|k: int|
                    0 <= k < f ==> seen@[k] == has_cover_among(
                        tests,
                        #[trigger] names[k],
                        t + 1,
                    ),
                forall|k: int|
                    f <= k < names.len() ==> seen@[k] == has_cover_among(
                        tests,
                        #[trigger] names[k],
                        t as int,
                    ),
                report@ == done + covered_by(names, tests[t as int], t as int, f as int),
            decreases functions.len() - f,
        {
            if includes(test.as_slice(), functions[f].as_slice()) {
                report.push(MatchEntry { function: f, test: Some(t) });
                seen.set(f, true);
            }
            f += 1;
        }
        t += 1;
    }
    let ghost covered = report@;
    let mut f: usize = 0;
    while f < functions.len()
        invariant
            f <= functions.len(),
            functions@.len() == names.len(),
            seen@.len() == names.len(),
            forall|k: int|
                0 <= k < names.len() ==> seen@[k] == has_cover(tests, #[trigger] names[k]),
            report@ == covered + uncovered_lines(names, tests, f as int),
        decreases functions.len() - f,
    {
        if !seen[f] {
            report.push(MatchEntry { function: f, test: None });
        }
        f += 1;
    }
    proof {
        assert(names.len() == source.functions.len());
        assert(tests.len() == source.tests.len());
        lemma_report_holds(names, tests);
    }
    report
}

} // verus!
