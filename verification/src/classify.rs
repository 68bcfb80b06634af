//! The line classifier: which lines of a text declare a function, which a
//! test, and under which signature each is recorded.
//!
//! The classifier reads no syntax. A line counts as a declaration by the
//! substrings that it holds, and as a test by the line in front of it.

use crate::source::{Settings, Source, SourceView};
use crate::text::{
    contains, count, count_occurrences, find_char, includes, lemma_position, lemma_position_finds,
    lemma_trim, line_bounds, lines, occurs_at, position, skip_space, starts_at, string_of,
    to_chars, trim, trim_start,
};
use vstd::prelude::*;
use vstd::slice::slice_subrange;

verus! {

/// The keyword of a declaration, with the blank behind it.
pub open spec fn keyword() -> Seq<char> {
    "fn "@
}

/// What a signature begins with.
pub open spec fn declaration_prefix() -> Seq<char> {
    "fn"@
}

/// A line that holds these words is never a declaration: with them a text can
/// speak of the keyword without being taken for code.
pub open spec fn exclusion() -> Seq<char> {
    "exactly this"@
}

/// The annotation that makes the declaration on the next line a test.
pub open spec fn test_marker() -> Seq<char> {
    "#[test]"@
}

/// The arrow in front of a return type.
pub open spec fn return_arrow() -> Seq<char> {
    "->"@
}

/// The call that a scan counts as a risk.
pub open spec fn risk_marker() -> Seq<char> {
    "unwrap()"@
}

/// A line may be a declaration if it holds the keyword and an opening
/// parenthesis, and does not hold the exclusion words.
pub open spec fn is_candidate(line: Seq<char>) -> bool {
    &&& contains(line, keyword())
    &&& line.contains('(')
    &&& !contains(line, exclusion())
}

/// The signature that a line is recorded under: the line without its leading
/// white space, and, unless the whole line is asked for, without everything
/// from its first opening parenthesis on.
pub open spec fn signature(line: Seq<char>, full_line: bool) -> Seq<char> {
    let trimmed = trim_start(line);
    if full_line {
        trimmed
    } else {
        trimmed.take(position(trimmed, '(') as int)
    }
}

/// A line declares something if it is a candidate whose signature begins with
/// the declaration prefix.
pub open spec fn is_declaration(line: Seq<char>, full_line: bool) -> bool {
    is_candidate(line) && occurs_at(signature(line, full_line), declaration_prefix(), 0)
}

/// What the classifier makes of one line.
pub enum Verdict {
    /// The line is not recorded.
    Skipped,
    /// The line declares a function with this signature.
    Function(Seq<char>),
    /// The line declares a test with this signature.
    Test(Seq<char>),
}

/// The verdict on `line`, given the line in front of it. A declaration behind a
/// line that holds the test annotation is a test, whatever the settings say of
/// return types; any other declaration is a function, unless only functions
/// with a return type are asked for and the line shows no arrow.
pub open spec fn classify(previous: Seq<char>, line: Seq<char>, settings: Settings) -> Verdict {
    if !is_declaration(line, settings.full_line) {
        Verdict::Skipped
    } else if contains(trim_start(previous), test_marker()) {
        Verdict::Test(signature(line, settings.full_line))
    } else if settings.only_with_returns && !contains(line, return_arrow()) {
        Verdict::Skipped
    } else {
        Verdict::Function(signature(line, settings.full_line))
    }
}

/// The line in front of line `i`; the first line has the empty line in front.
pub open spec fn previous_line(all: Seq<Seq<char>>, i: int) -> Seq<char> {
    if i <= 0 {
        Seq::empty()
    } else {
        all[i - 1]
    }
}

/// The verdicts on the lines of `text`, line by line.
pub open spec fn verdicts(text: Seq<char>, settings: Settings) -> Seq<Verdict> {
    let all = lines(text);
    Seq::new(all.len(), |i: int| classify(previous_line(all, i), all[i], settings))
}

/// The signatures of the functions among `found`, in order.
pub open spec fn functions_among(found: Seq<Verdict>) -> Seq<Seq<char>>
    decreases found.len(),
{
    if found.len() == 0 {
        Seq::empty()
    } else {
        let earlier = functions_among(found.drop_last());
        match found.last() {
            Verdict::Function(name) => earlier.push(name),
            _ => earlier,
        }
    }
}

/// The signatures of the tests among `found`, in order.
pub open spec fn tests_among(found: Seq<Verdict>) -> Seq<Seq<char>>
    decreases found.len(),
{
    if found.len() == 0 {
        Seq::empty()
    } else {
        let earlier = tests_among(found.drop_last());
        match found.last() {
            Verdict::Test(name) => earlier.push(name),
            _ => earlier,
        }
    }
}

impl SourceView {
    /// The record after a scan of `text`: the functions and tests of the text
    /// are added behind those already there, and the count of risk markers is
    /// that of this text, whatever it was before.
    pub open spec fn scanned(self, text: Seq<char>, settings: Settings) -> SourceView {
        SourceView {
            functions: self.functions + functions_among(verdicts(text, settings)),
            tests: self.tests + tests_among(verdicts(text, settings)),
            unwraps: count_occurrences(text, risk_marker()),
        }
    }
}

/// Line `i` of `text` is recorded with `verdict`.
pub open spec fn line_yields(text: Seq<char>, settings: Settings, i: int, verdict: Verdict) -> bool {
    0 <= i < lines(text).len() && verdicts(text, settings)[i] == verdict
}

/// Some line of `text` is recorded with `verdict`.
pub open spec fn some_line_yields(text: Seq<char>, settings: Settings, verdict: Verdict) -> bool {
    exists|i: int| line_yields(text, settings, i, verdict)
}

/// Every entry of the functions and of the tests in this record begins with
/// the declaration prefix.
pub open spec fn all_declared(record: SourceView) -> bool {
    &&& forall|k: int|
        0 <= k < record.functions.len() ==> occurs_at(
            #[trigger] record.functions[k],
            declaration_prefix(),
            0,
        )
    &&& forall|k: int|
        0 <= k < record.tests.len() ==> occurs_at(
            #[trigger] record.tests[k],
            declaration_prefix(),
            0,
        )
}

/// A line that holds the exclusion words is skipped, whatever else it holds,
/// whatever stands in front of it and whatever the settings are.
pub proof fn lemma_excluded_line_is_skipped(
    previous: Seq<char>,
    line: Seq<char>,
    settings: Settings,
)
    requires
        contains(line, exclusion()),
    ensures
        classify(previous, line, settings) is Skipped,
{
}

/// A declaration is a test if the line in front of it is the test annotation
/// once the white space around it is taken away, be it at both ends or at the
/// start alone: it is never a function, and the setting that asks for return
/// types does not touch it.
pub proof fn lemma_annotated_declaration_is_test(
    previous: Seq<char>,
    line: Seq<char>,
    settings: Settings,
)
    requires
        trim(previous) == test_marker() || trim_start(previous) == test_marker(),
        is_declaration(line, settings.full_line),
    ensures
        classify(previous, line, settings) == Verdict::Test(signature(line, settings.full_line)),
{
    let marker = test_marker();
    lemma_trim(previous);
    assert(marker.subrange(0, marker.len() as int) =~= marker);
    assert(occurs_at(trim_start(previous), marker, 0));
}

/// Where only functions with a return type are asked for, a line without the
/// arrow is no function.
pub proof fn lemma_no_arrow_no_function(previous: Seq<char>, line: Seq<char>, settings: Settings)
    requires
        settings.only_with_returns,
        !contains(line, return_arrow()),
    ensures
        !(classify(previous, line, settings) is Function),
{
}

/// Asking for return types changes no test: a line is a test with it exactly
/// if it is one without it, and under the same signature.
pub proof fn lemma_tests_ignore_returns(previous: Seq<char>, line: Seq<char>, full_line: bool)
    ensures
        ({
            let with = classify(
                previous,
                line,
                Settings { only_with_returns: true, full_line },
            );
            let without = classify(
                previous,
                line,
                Settings { only_with_returns: false, full_line },
            );
            &&& with is Test <==> without is Test
            &&& with is Test ==> with == without
        }),
{
}

/// A recorded signature is its line without the leading white space. Where
/// the whole line is asked for, it is all of that; else it is what stands in
/// front of the first opening parenthesis, and holds none.
pub proof fn lemma_signature_shape(line: Seq<char>, full_line: bool)
    ensures
        full_line ==> signature(line, full_line) == trim_start(line),
        !full_line ==> !signature(line, full_line).contains('('),
        !full_line ==> signature(line, full_line).is_prefix_of(trim_start(line)),
        !full_line && trim_start(line).contains('(') ==> trim_start(line)[signature(
            line,
            full_line,
        ).len() as int] == '(',
{
    let trimmed = trim_start(line);
    lemma_position(trimmed, '(');
    lemma_position_finds(trimmed, '(');
    if !full_line {
        let name = signature(line, full_line);
        assert(name == trimmed.take(position(trimmed, '(') as int));
        if name.contains('(') {
            let i = choose|i: int| 0 <= i < name.len() && name[i] == '(';
            assert(trimmed[i] == '(');
        }
    }
}

/// Every function among the verdicts was the verdict on one of the lines.
pub proof fn lemma_function_has_line(found: Seq<Verdict>, k: int) -> (i: int)
    requires
        0 <= k < functions_among(found).len(),
    ensures
        0 <= i < found.len(),
        found[i] == Verdict::Function(functions_among(found)[k]),
    decreases found.len(),
{
    let earlier = functions_among(found.drop_last());
    if found.last() is Function && k == earlier.len() {
        found.len() - 1
    } else {
        lemma_function_has_line(found.drop_last(), k)
    }
}

/// Every test among the verdicts was the verdict on one of the lines.
pub proof fn lemma_test_has_line(found: Seq<Verdict>, k: int) -> (i: int)
    requires
        0 <= k < tests_among(found).len(),
    ensures
        0 <= i < found.len(),
        found[i] == Verdict::Test(tests_among(found)[k]),
    decreases found.len(),
{
    let earlier = tests_among(found.drop_last());
    if found.last() is Test && k == earlier.len() {
        found.len() - 1
    } else {
        lemma_test_has_line(found.drop_last(), k)
    }
}

/// Whatever a scan adds to a record, a line of the text declared it: each new
/// function and each new test is the verdict on a line, and the scan leaves
/// what the record held where it was.
pub proof fn lemma_scan_records_lines(record: SourceView, text: Seq<char>, settings: Settings)
    ensures
        record.functions.is_prefix_of(record.scanned(text, settings).functions),
        record.tests.is_prefix_of(record.scanned(text, settings).tests),
        forall|k: int|
            record.functions.len() <= k < record.scanned(text, settings).functions.len()
                ==> some_line_yields(
                text,
                settings,
                Verdict::Function(#[trigger] record.scanned(text, settings).functions[k]),
            ),
        forall|k: int|
            record.tests.len() <= k < record.scanned(text, settings).tests.len()
                ==> some_line_yields(
                text,
                settings,
                Verdict::Test(#[trigger] record.scanned(text, settings).tests[k]),
            ),
{
    let after = record.scanned(text, settings);
    let found = verdicts(text, settings);
    assert(after.functions.subrange(0, record.functions.len() as int) =~= record.functions);
    assert(after.tests.subrange(0, record.tests.len() as int) =~= record.tests);
    assert forall|k: int|
        record.functions.len() <= k < after.functions.len() implies some_line_yields(
        text,
        settings,
        Verdict::Function(#[trigger] after.functions[k]),
    ) by {
        let i = lemma_function_has_line(found, k - record.functions.len());
        assert(line_yields(text, settings, i, Verdict::Function(after.functions[k])));
    }
    assert forall|k: int| record.tests.len() <= k < after.tests.len() implies some_line_yields(
        text,
        settings,
        Verdict::Test(#[trigger] after.tests[k]),
    ) by {
        let i = lemma_test_has_line(found, k - record.tests.len());
        assert(line_yields(text, settings, i, Verdict::Test(after.tests[k])));
    }
}

/// What is recorded for a line is the signature of that line: the line without
/// its leading white space, whole or cut in front of its first opening
/// parenthesis as the settings say. It begins with the declaration prefix, and
/// its line does not hold the exclusion words.
pub proof fn lemma_recorded_signature(
    text: Seq<char>,
    settings: Settings,
    i: int,
    name: Seq<char>,
)
    requires
        line_yields(text, settings, i, Verdict::Function(name)) || line_yields(
            text,
            settings,
            i,
            Verdict::Test(name),
        ),
    ensures
        name == signature(lines(text)[i], settings.full_line),
        settings.full_line ==> name == trim_start(lines(text)[i]),
        !settings.full_line ==> !name.contains('(') && name.is_prefix_of(
            trim_start(lines(text)[i]),
        ),
        occurs_at(name, declaration_prefix(), 0),
        !contains(lines(text)[i], exclusion()),
{
    lemma_signature_shape(lines(text)[i], settings.full_line);
}

/// A line of a text that holds the exclusion words adds nothing to a record.
pub proof fn lemma_exclusion_never_recorded(text: Seq<char>, settings: Settings, i: int)
    requires
        0 <= i < lines(text).len(),
        contains(lines(text)[i], exclusion()),
    ensures
        line_yields(text, settings, i, Verdict::Skipped),
{
}

/// A declaration in a text is recorded as a test if the line in front of it
/// is, but for the white space around it, the test annotation.
pub proof fn lemma_annotated_line_is_test(text: Seq<char>, settings: Settings, i: int)
    requires
        0 < i < lines(text).len(),
        trim(lines(text)[i - 1]) == test_marker() || trim_start(lines(text)[i - 1])
            == test_marker(),
        is_declaration(lines(text)[i], settings.full_line),
    ensures
        line_yields(
            text,
            settings,
            i,
            Verdict::Test(signature(lines(text)[i], settings.full_line)),
        ),
{
    lemma_annotated_declaration_is_test(lines(text)[i - 1], lines(text)[i], settings);
}

/// With return types asked for, a line of a text without the arrow adds no
/// function to a record.
pub proof fn lemma_no_arrow_never_function(text: Seq<char>, settings: Settings, i: int)
    requires
        0 <= i < lines(text).len(),
        settings.only_with_returns,
        !contains(lines(text)[i], return_arrow()),
    ensures
        !(verdicts(text, settings)[i] is Function),
{
}

/// Asking for return types takes no test out of a record: a scan finds the
/// same tests with it and without it.
pub proof fn lemma_scan_tests_ignore_returns(text: Seq<char>, full_line: bool)
    ensures
        tests_among(verdicts(text, Settings { only_with_returns: true, full_line }))
            == tests_among(verdicts(text, Settings { only_with_returns: false, full_line })),
{
    let with = verdicts(text, Settings { only_with_returns: true, full_line });
    let without = verdicts(text, Settings { only_with_returns: false, full_line });
    assert forall|i: int| 0 <= i < with.len() implies (with[i] is Test <==> without[i] is Test)
        && (with[i] is Test ==> with[i] == without[i]) by {
        lemma_tests_ignore_returns(previous_line(lines(text), i), lines(text)[i], full_line);
    }
    lemma_same_tests(with, without);
}

/// Two runs of verdicts that agree on their tests hold the same tests.
proof fn lemma_same_tests(one: Seq<Verdict>, other: Seq<Verdict>)
    requires
        one.len() == other.len(),
        forall|i: int|
            0 <= i < one.len() ==> (one[i] is Test <==> other[i] is Test) && (one[i] is Test
                ==> one[i] == other[i]),
    ensures
        tests_among(one) == tests_among(other),
    decreases one.len(),
{
    if one.len() > 0 {
        lemma_same_tests(one.drop_last(), other.drop_last());
    }
}

/// A scan keeps a record of declarations one: if every entry began with the
/// declaration prefix before, every entry does so after.
pub proof fn lemma_scan_keeps_declared(record: SourceView, text: Seq<char>, settings: Settings)
    requires
        all_declared(record),
    ensures
        all_declared(record.scanned(text, settings)),
{
    let after = record.scanned(text, settings);
    let found = verdicts(text, settings);
    assert forall|k: int| 0 <= k < after.functions.len() implies occurs_at(
        #[trigger] after.functions[k],
        declaration_prefix(),
        0,
    ) by {
        if k >= record.functions.len() {
            let i = lemma_function_has_line(found, k - record.functions.len());
        }
    }
    assert forall|k: int| 0 <= k < after.tests.len() implies occurs_at(
        #[trigger] after.tests[k],
        declaration_prefix(),
        0,
    ) by {
        if k >= record.tests.len() {
            let i = lemma_test_has_line(found, k - record.tests.len());
        }
    }
}

/// What the classifier hands out for one line.
#[derive(Debug, PartialEq, Eq)]
pub enum Finding {
    /// The line is not recorded.
    Skipped,
    /// The line declares a function with this signature.
    Function(String),
    /// The line declares a test with this signature.
    Test(String),
}

impl View for Finding {
    type V = Verdict;

    open spec fn view(&self) -> Verdict {
        match self {
            Finding::Skipped => Verdict::Skipped,
            Finding::Function(name) => Verdict::Function(name@),
            Finding::Test(name) => Verdict::Test(name@),
        }
    }
}

/// The markers as characters, made once for a scan.
pub(crate) struct Markers {
    keyword: Vec<char>,
    prefix: Vec<char>,
    exclusion: Vec<char>,
    test: Vec<char>,
    arrow: Vec<char>,
    risk: Vec<char>,
}

impl Markers {
    pub(crate) closed spec fn well_formed(&self) -> bool {
        &&& self.keyword@ == keyword()
        &&& self.prefix@ == declaration_prefix()
        &&& self.exclusion@ == exclusion()
        &&& self.test@ == test_marker()
        &&& self.arrow@ == return_arrow()
        &&& self.risk@ == risk_marker()
    }

    pub(crate) fn new() -> (markers: Markers)
        ensures
            markers.well_formed(),
    {
        Markers {
            keyword: to_chars("fn "),
            prefix: to_chars("fn"),
            exclusion: to_chars("exactly this"),
            test: to_chars("#[test]"),
            arrow: to_chars("->"),
            risk: to_chars("unwrap()"),
        }
    }
}

/// The verdict on one line, on characters.
pub(crate) fn classify_chars(
    markers: &Markers,
    previous: &[char],
    line: &[char],
    settings: &Settings,
) -> (finding: Finding)
    requires
        markers.well_formed(),
    ensures
        finding@ == classify(previous@, line@, *settings),
{
    proof {
        lemma_position_finds(line@, '(');
    }
    if !includes(line, markers.keyword.as_slice()) || find_char(line, '(') >= line.len()
        || includes(line, markers.exclusion.as_slice()) {
        return Finding::Skipped;
    }
    let trimmed = slice_subrange(line, skip_space(line), line.len());
    assert(trimmed@ =~= trim_start(line@));
    let name = if settings.full_line {
        trimmed
    } else {
        slice_subrange(trimmed, 0, find_char(trimmed, '('))
    };
    assert(name@ =~= signature(line@, settings.full_line));
    if !starts_at(name, markers.prefix.as_slice(), 0) {
        return Finding::Skipped;
    }
    let before = slice_subrange(previous, skip_space(previous), previous.len());
    assert(before@ =~= trim_start(previous@));
    if includes(before, markers.test.as_slice()) {
        return Finding::Test(string_of(name));
    }
    if settings.only_with_returns && !includes(line, markers.arrow.as_slice()) {
        return Finding::Skipped;
    }
    Finding::Function(string_of(name))
}

/// The verdict on `line`, given the line in front of it.
pub fn classify_line(previous: &str, line: &str, settings: &Settings) -> (finding: Finding)
    ensures
        finding@ == classify(previous@, line@, *settings),
{
    let markers = Markers::new();
    let previous = to_chars(previous);
    let line = to_chars(line);
    classify_chars(&markers, previous.as_slice(), line.as_slice(), settings)
}

/// The functions among the first `i + 1` verdicts are those among the first
/// `i`, and verdict `i` behind them if it is a function.
pub proof fn lemma_functions_among_next(found: Seq<Verdict>, i: int)
    requires
        0 <= i < found.len(),
    ensures
        functions_among(found.take(i + 1)) == match found[i] {
            Verdict::Function(name) => functions_among(found.take(i)).push(name),
            _ => functions_among(found.take(i)),
        },
{
    assert(found.take(i + 1).drop_last() =~= found.take(i));
}

/// The tests among the first `i + 1` verdicts are those among the first `i`,
/// and verdict `i` behind them if it is a test.
pub proof fn lemma_tests_among_next(found: Seq<Verdict>, i: int)
    requires
        0 <= i < found.len(),
    ensures
        tests_among(found.take(i + 1)) == match found[i] {
            Verdict::Test(name) => tests_among(found.take(i)).push(name),
            _ => tests_among(found.take(i)),
        },
{
    assert(found.take(i + 1).drop_last() =~= found.take(i));
}

/// Scans one text into the record: every line is classified with the line in
/// front of it, the functions and tests found are added behind those that the
/// record holds, and the count of risk markers is set to that of this text.
pub fn isolate_functions_and_tests(contents: &str, source_ref: &mut Source, settings: &Settings)
    ensures
        final(source_ref)@ == old(source_ref)@.scanned(contents@, *settings),
        all_declared(old(source_ref)@) ==> all_declared(final(source_ref)@),
{
    proof {
        if all_declared(source_ref@) {
            lemma_scan_keeps_declared(source_ref@, contents@, *settings);
        }
    }
    let markers = Markers::new();
    let text = to_chars(contents);
    let bounds = line_bounds(text.as_slice());
    let ghost before = source_ref@;
    let ghost found = verdicts(contents@, *settings);
    source_ref.unwraps = count(text.as_slice(), markers.risk.as_slice());
    let mut i: usize = 0;
    while i < bounds.len()
        invariant
            markers.well_formed(),
            text@ == contents@,
            found == verdicts(contents@, *settings),
            bounds@.len() == lines(text@).len(),
            forall|k: int|
                #![trigger bounds@[k]]
                0 <= k < bounds@.len() ==> {
                    &&& bounds@[k].0 <= bounds@[k].1 <= text@.len()
                    &&& lines(text@)[k] == text@.subrange(bounds@[k].0 as int, bounds@[k].1 as int)
                },
            i <= bounds.len(),
            source_ref.functions.deep_view() == before.functions + functions_among(
                found.take(i as int),
            ),
            source_ref.tests.deep_view() == before.tests + tests_among(found.take(i as int)),
            source_ref.unwraps == count_occurrences(contents@, risk_marker()),
        decreases bounds.len() - i,
    {
        let (from, to) = bounds[i];
        let line = slice_subrange(text.as_slice(), from, to);
        let finding = if i == 0 {
            let nothing = slice_subrange(text.as_slice(), 0, 0);
            assert(nothing@ =~= Seq::<char>::empty());
            classify_chars(&markers, nothing, line, settings)
        } else {
            let (from, to) = bounds[i - 1];
            classify_chars(&markers, slice_subrange(text.as_slice(), from, to), line, settings)
        };
        proof {
            assert(finding@ == found[i as int]);
            lemma_functions_among_next(found, i as int);
            lemma_tests_among_next(found, i as int);
        }
        let ghost functions = source_ref.functions.deep_view();
        let ghost tests = source_ref.tests.deep_view();
        match finding {
            Finding::Function(name) => {
                source_ref.functions.push(name);
                assert(source_ref.functions.deep_view() =~= functions.push(name@));
            },
            Finding::Test(name) => {
                source_ref.tests.push(name);
                assert(source_ref.tests.deep_view() =~= tests.push(name@));
            },
            Finding::Skipped => {},
        }
        i += 1;
    }
    assert(found.take(found.len() as int) =~= found);
}

} // verus!
