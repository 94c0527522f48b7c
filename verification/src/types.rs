//! Call frames, backtraces and parse errors.
//!
//! A `Backtrace` is an ordered sequence of `Entry` values, outermost
//! call first; each entry carries a canonical function path and an
//! optional source `Location`. Views of these types are stated over
//! `Seq<char>` so that contracts can speak about their text.

use vstd::prelude::*;

verus! {

/// A source position: path, 1-based line and column.
#[derive(Debug)]
pub struct Location {
    pub path: String,
    pub line: u32,
    pub column: u32,
}

/// Ghost image of a `Location`.
#[verifier::ext_equal]
pub ghost struct LocationView {
    pub path: Seq<char>,
    pub line: u32,
    pub column: u32,
}

impl View for Location {
    type V = LocationView;

    open spec fn view(&self) -> LocationView {
        LocationView { path: self.path@, line: self.line, column: self.column }
    }
}

impl Location {
    pub fn new(path: String, line: u32, column: u32) -> (r: Location)
        ensures
            r@ == (LocationView { path: path@, line, column }),
    {
        Location { path, line, column }
    }
}

/// One call frame: a canonical function path and an optional location.
#[derive(Debug)]
pub struct Entry {
    pub function: String,
    pub location: Option<Location>,
}

/// Ghost image of an `Entry`.
#[verifier::ext_equal]
pub ghost struct EntryView {
    pub function: Seq<char>,
    pub location: Option<LocationView>,
}

/// Ghost image of an optional location.
pub open spec fn loc_opt_view(o: Option<Location>) -> Option<LocationView> {
    match o {
        Some(l) => Some(l@),
        None => None,
    }
}

impl View for Entry {
    type V = EntryView;

    open spec fn view(&self) -> EntryView {
        EntryView { function: self.function@, location: loc_opt_view(self.location) }
    }
}

impl Entry {
    /// A frame with the given function path and location.
    pub fn new(function: String, location: Option<Location>) -> (r: Entry)
        ensures
            r@ == (EntryView { function: function@, location: loc_opt_view(location) }),
    {
        Entry { function, location }
    }

    /// A frame without a source location.
    pub fn no_location(function: String) -> (r: Entry)
        ensures
            r@ == (EntryView { function: function@, location: None }),
    {
        Entry { function, location: None }
    }
}

/// Ghost image of a sequence of entries.
pub open spec fn entries_view(s: Seq<Entry>) -> Seq<EntryView> {
    Seq::new(s.len(), |i: int| s[i]@)
}

/// An ordered backtrace, outermost (most recent) call first.
#[derive(Debug)]
pub struct Backtrace(pub Vec<Entry>);

impl View for Backtrace {
    type V = Seq<EntryView>;

    open spec fn view(&self) -> Seq<EntryView> {
        entries_view(self.0@)
    }
}

impl Backtrace {
    /// A backtrace made of the given entries, in their order.
    pub fn with_entries(entries: Vec<Entry>) -> (r: Backtrace)
        ensures
            r@ == entries_view(entries@),
    {
        Backtrace(entries)
    }

    /// The entries, in order.
    pub fn entries(&self) -> (r: &Vec<Entry>)
        ensures
            entries_view(r@) == self@,
    {
        &self.0
    }
}

/// What went wrong while parsing a backtrace block.
#[derive(Clone, Copy, PartialEq, Eq, Structural, Debug)]
pub enum ParseErrorKind {
    /// A header line does not match the frame grammar.
    MalformedFrame,
    /// Bracket nesting mismatch, or a disallowed character in symbol text.
    UnbalancedSymbol,
    /// A numeric field does not fit its type.
    NumericOverflow,
    /// A required numeric field has no digits of the required base.
    NotANumber,
    /// Bracketed groups nested deeper than the recursion guard allows.
    MaxNestingExceeded,
}

/// A parse failure: its kind, the character offset into the block at
/// which it was found, and the content of the line that caused it.
#[derive(Debug)]
pub struct ParseError {
    pub kind: ParseErrorKind,
    pub offset: usize,
    pub line: String,
}

/// Ghost image of a `ParseError`.
#[verifier::ext_equal]
pub ghost struct ParseErrorView {
    pub kind: ParseErrorKind,
    pub offset: int,
    pub line: Seq<char>,
}

impl View for ParseError {
    type V = ParseErrorView;

    open spec fn view(&self) -> ParseErrorView {
        ParseErrorView { kind: self.kind, offset: self.offset as int, line: self.line@ }
    }
}

/// Configuration of the surrounding application: verbosity and the
/// name of the editor-side function that receives a backtrace.
#[derive(Clone)]
pub struct Config {
    pub verbose: bool,
    pub stacky_function: String,
}

impl Config {
    /// The configuration the application starts from.
    pub fn new() -> (r: Config)
        ensures
            !r.verbose,
            r.stacky_function@ == "stacky_global"@,
    {
        Config { verbose: false, stacky_function: String::from_str("stacky_global") }
    }
}

impl Default for Config {
    fn default() -> (r: Config)
        ensures
            !r.verbose,
            r.stacky_function@ == "stacky_global"@,
    {
        Config::new()
    }
}

} // verus!
