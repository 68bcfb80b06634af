//! The aggregator: one record for the texts of many files.

use crate::classify::{
    all_declared, isolate_functions_and_tests, lemma_scan_keeps_declared, risk_marker,
};
use crate::source::{Settings, Source, SourceView};
use crate::text::{contains, count_occurrences, includes, to_chars};
use vstd::prelude::*;

verus! {

/// What marks the path of a file that a scan reads.
pub open spec fn source_suffix() -> Seq<char> {
    ".rs"@
}

/// The record of a scan of `texts`, one after the other, that began with
/// nothing.
pub open spec fn scan_all(texts: Seq<Seq<char>>, settings: Settings) -> SourceView
    decreases texts.len(),
{
    if texts.len() == 0 {
        SourceView::empty()
    } else {
        scan_all(texts.drop_last(), settings).scanned(texts.last(), settings)
    }
}

/// The record holds the count of risk markers of the text that was scanned
/// last, and of no other: the counts of the texts before it are gone. With no
/// text the count is zero.
pub proof fn lemma_last_text_counts(texts: Seq<Seq<char>>, settings: Settings)
    ensures
        texts.len() == 0 ==> scan_all(texts, settings).unwraps == 0,
        texts.len() > 0 ==> scan_all(texts, settings).unwraps == count_occurrences(
            texts.last(),
            risk_marker(),
        ),
{
}

/// The functions and the tests of a run of texts are those of its first part
/// with those of the rest behind them: the record keeps the order of the texts,
/// and within a text the order of the lines.
pub proof fn lemma_texts_in_order(first: Seq<Seq<char>>, rest: Seq<Seq<char>>, settings: Settings)
    ensures
        scan_all(first + rest, settings).functions == scan_all(first, settings).functions
            + scan_all(rest, settings).functions,
        scan_all(first + rest, settings).tests == scan_all(first, settings).tests + scan_all(
            rest,
            settings,
        ).tests,
    decreases rest.len(),
{
    if rest.len() == 0 {
        assert(first + rest =~= first);
    } else {
        let all = first + rest;
        assert(all.drop_last() =~= first + rest.drop_last());
        assert(all.last() == rest.last());
        lemma_texts_in_order(first, rest.drop_last(), settings);
    }
}

/// Every entry of a record that began empty begins with the declaration
/// prefix.
pub proof fn lemma_all_declared(texts: Seq<Seq<char>>, settings: Settings)
    ensures
        all_declared(scan_all(texts, settings)),
    decreases texts.len(),
{
    if texts.len() > 0 {
        lemma_all_declared(texts.drop_last(), settings);
        lemma_scan_keeps_declared(scan_all(texts.drop_last(), settings), texts.last(), settings);
    }
}

/// The record of one text alone holds what a scan of that text finds.
pub proof fn lemma_one_text(text: Seq<char>, settings: Settings)
    ensures
        scan_all(seq![text], settings) == SourceView::empty().scanned(text, settings),
{
    assert(seq![text].drop_last() =~= Seq::<Seq<char>>::empty());
    assert(scan_all(seq![text].drop_last(), settings) == SourceView::empty());
}

/// Whether a scan reads the file at `path`: it does if the path holds the
/// suffix of source files, wherever in the path.
pub fn is_source_path(path: &str) -> (wanted: bool)
    ensures
        wanted == contains(path@, source_suffix()),
{
    let path = to_chars(path);
    let suffix = to_chars(".rs");
    includes(path.as_slice(), suffix.as_slice())
}

/// Scans the texts in the order given into one record that begins empty.
pub fn walk(texts: &[String], settings: &Settings) -> (source: Source)
    ensures
        source@ == scan_all(texts.deep_view(), *settings),
        all_declared(source@),
{
    proof {
        lemma_all_declared(texts.deep_view(), *settings);
    }
    let mut source = Source::new();
    let mut i: usize = 0;
    while i < texts.len()
        invariant
            i <= texts.len(),
            source@ == scan_all(texts.deep_view().take(i as int), *settings),
        decreases texts.len() - i,
    {
        isolate_functions_and_tests(texts[i].as_str(), &mut source, settings);
        proof {
            let seen = texts.deep_view().take(i + 1);
            assert(seen.drop_last() =~= texts.deep_view().take(i as int));
            assert(seen.last() == texts[i as int]@);
        }
        i += 1;
    }
    assert(texts.deep_view().take(texts.len() as int) =~= texts.deep_view());
    source
}

} // verus!
