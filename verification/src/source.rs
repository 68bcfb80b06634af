//! The settings of a scan and the record that a scan fills.

use vstd::prelude::*;

verus! {

/// What a scan is asked to keep.
#[derive(Clone, Copy, Debug)]
pub struct Settings {
    /// Leave out every function whose line shows no return type.
    pub only_with_returns: bool,
    /// Keep the whole declaration line as the signature, not only the part in
    /// front of the parameter list.
    pub full_line: bool,
}

/// What a scan has found so far: the signatures of the functions and of the
/// tests, each in the order in which the scan met them, and the number of
/// risk markers in the text that was scanned last.
#[derive(Debug)]
pub struct Source {
    /// The signatures of the functions, in the order in which they were met.
    pub functions: Vec<String>,
    /// The signatures of the tests, in the order in which they were met.
    pub tests: Vec<String>,
    /// The number of risk markers in the text that was scanned last.
    pub unwraps: usize,
}

/// A `Source` as plain values.
pub struct SourceView {
    /// The signatures of the functions.
    pub functions: Seq<Seq<char>>,
    /// The signatures of the tests.
    pub tests: Seq<Seq<char>>,
    /// The number of risk markers in the text that was scanned last.
    pub unwraps: nat,
}

impl View for Source {
    type V = SourceView;

    open spec fn view(&self) -> SourceView {
        SourceView {
            functions: self.functions.deep_view(),
            tests: self.tests.deep_view(),
            unwraps: self.unwraps as nat,
        }
    }
}

impl SourceView {
    /// The record of a scan that has seen nothing.
    pub open spec fn empty() -> SourceView {
        SourceView { functions: Seq::empty(), tests: Seq::empty(), unwraps: 0 }
    }
}

impl Default for Settings {
    /// Every function counts, and a signature ends in front of its parameters.
    fn default() -> (settings: Settings)
        ensures
            !settings.only_with_returns,
            !settings.full_line,
    {
        Settings { only_with_returns: false, full_line: false }
    }
}

impl Source {
    /// A record with nothing in it.
    pub fn new() -> (source: Source)
        ensures
            source@ == SourceView::empty(),
    {
        let source = Source { functions: Vec::new(), tests: Vec::new(), unwraps: 0 };
        assert(source@.functions =~= Seq::empty());
        assert(source@.tests =~= Seq::empty());
        source
    }
}

} // verus!
