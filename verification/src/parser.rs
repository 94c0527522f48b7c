//! The backtrace grammar: locations, frame headers and whole blocks.
//!
//! A block is a sequence of lines. Each frame is one header line —
//! an optional prefix token, a decimal index, `:`, whitespace, a
//! pointer `0x`-literal, ` - `, and symbol text — optionally followed
//! by a location line, recognized by its `at ` marker and a trailing
//! `path:line:column` suffix. A line that fails the location grammar
//! is never an error: it is re-offered as the next frame's header.
//! The first header that fails the frame grammar aborts the block
//! with the offence's kind, offset and line.

use vstd::prelude::*;
use vstd::slice::slice_subrange;

use crate::chars::all_digits;
use crate::chars::chars_to_string;
use crate::chars::class_end;
use crate::chars::class_run;
use crate::chars::digits_val;
use crate::chars::is_digit_char;
use crate::chars::is_nonws_char;
use crate::chars::is_ws_char;
use crate::chars::parse_u32;
use crate::chars::str_to_chars;
use crate::chars::CharClass;
use crate::symbol::parse_symbol;
use crate::symbol::spec_symbol;
use crate::types::entries_view;
use crate::types::loc_opt_view;
use crate::types::Backtrace;
use crate::types::Entry;
use crate::types::EntryView;
use crate::types::Location;
use crate::types::LocationView;
use crate::types::ParseError;
use crate::types::ParseErrorKind;
use crate::types::ParseErrorView;

verus! {

/// Position of the first `at ` marker at or after `i`, if any.
pub open spec fn find_at(s: Seq<char>, i: int) -> Option<int>
    decreases s.len() - i,
{
    if i < 0 || i + 3 > s.len() {
        None
    } else if s[i] == 'a' && s[i + 1] == 't' && s[i + 2] == ' ' {
        Some(i)
    } else {
        find_at(s, i + 1)
    }
}

/// Position of the first occurrence of `c` at or after `i`, if any.
pub open spec fn find_char(s: Seq<char>, i: int, c: char) -> Option<int>
    decreases s.len() - i,
{
    if i < 0 || i >= s.len() {
        None
    } else if s[i] == c {
        Some(i)
    } else {
        find_char(s, i + 1, c)
    }
}

/// The location grammar over one line: an ignorable prefix, the first
/// `at ` marker, a path running to the first colon after the marker,
/// then a 1-based line and column, each a nonempty digit run whose
/// value fits 32 bits, the column closing the line. Anything else —
/// no marker, no colons, stray characters among the digits, overflow —
/// is "no location here", never a hard error.
pub open spec fn spec_parse_location(s: Seq<char>) -> Option<LocationView> {
    match find_at(s, 0) {
        None => None,
        Some(a) => match find_char(s, a + 3, ':') {
            None => None,
            Some(p) => {
                let path = s.subrange(a + 3, p);
                match find_char(s, p + 1, ':') {
                    None => None,
                    Some(m) => {
                        let lstr = s.subrange(p + 1, m);
                        let cstr = s.subrange(m + 1, s.len() as int);
                        if lstr.len() > 0 && all_digits(lstr) && digits_val(lstr) <= u32::MAX
                            && cstr.len() > 0 && all_digits(cstr) && digits_val(cstr)
                            <= u32::MAX {
                            Some(
                                LocationView {
                                    path,
                                    line: digits_val(lstr) as u32,
                                    column: digits_val(cstr) as u32,
                                },
                            )
                        } else {
                            None
                        }
                    },
                }
            },
        },
    }
}

/// Walk to the first `at ` marker of `s`, if any.
fn find_marker(s: &[char]) -> (r: Option<usize>)
    ensures
        match r {
            Some(a) => find_at(s@, 0) == Some(a as int) && a + 3 <= s@.len(),
            None => find_at(s@, 0) is None,
        },
{
    let n = s.len();
    if n < 3 {
        return None;
    }
    let mut j: usize = 0;
    while j <= n - 3
        invariant
            j <= n - 2,
            3 <= n == s@.len(),
            find_at(s@, 0) == find_at(s@, j as int),
        decreases n - j,
    {
        if s[j] == 'a' && s[j + 1] == 't' && s[j + 2] == ' ' {
            return Some(j);
        }
        j = j + 1;
    }
    None
}

/// Walk to the first occurrence of `c` in `s` at or after `i`, if any.
fn find_char_from(s: &[char], i: usize, c: char) -> (r: Option<usize>)
    requires
        i <= s@.len(),
    ensures
        match r {
            Some(p) => find_char(s@, i as int, c) == Some(p as int) && i <= p < s@.len(),
            None => find_char(s@, i as int, c) is None,
        },
{
    let n = s.len();
    let mut j = i;
    while j < n
        invariant
            i <= j <= n,
            n == s@.len(),
            find_char(s@, i as int, c) == find_char(s@, j as int, c),
        decreases n - j,
    {
        if s[j] == c {
            return Some(j);
        }
        j = j + 1;
    }
    None
}

/// Parse one line against the location grammar.
pub fn parse_location_chars(line: &[char]) -> (r: Option<Location>)
    ensures
        loc_opt_view(r) == spec_parse_location(line@),
{
    let n = line.len();
    let a = match find_marker(line) {
        None => {
            return None;
        },
        Some(a) => a,
    };
    let p = match find_char_from(line, a + 3, ':') {
        None => {
            return None;
        },
        Some(p) => p,
    };
    let m = match find_char_from(line, p + 1, ':') {
        None => {
            return None;
        },
        Some(m) => m,
    };
    let lnum = match parse_u32(line, p + 1, m) {
        None => {
            return None;
        },
        Some(v) => v,
    };
    let cnum = match parse_u32(line, m + 1, n) {
        None => {
            return None;
        },
        Some(v) => v,
    };
    let path = chars_to_string(line, a + 3, p);
    Some(Location::new(path, lnum, cnum))
}

/// Is a frame index — a nonempty digit run closed by a colon — at `i`?
pub open spec fn index_at(s: Seq<char>, i: int) -> bool {
    let d = class_end(s, i, CharClass::Digit);
    d > i && d < s.len() && s[d] == ':'
}

/// The frame-header grammar after the index's colon at `p`: a run of
/// whitespace, the pointer `0x` plus at most sixteen hexadecimal
/// digits, the separator ` - `, then the symbol text to the end of the
/// line, canonicalized by [`spec_symbol`]. Each offence carries its
/// kind and its offset into the line.
pub open spec fn spec_header_from(s: Seq<char>, p: int) -> Result<
    Seq<char>,
    (ParseErrorKind, int),
> {
    let w = class_end(s, p, CharClass::Ws);
    if w == p {
        Err((ParseErrorKind::MalformedFrame, p))
    } else if !(w + 1 < s.len() && s[w] == '0' && s[w + 1] == 'x') {
        Err((ParseErrorKind::MalformedFrame, w))
    } else {
        let h = class_end(s, w + 2, CharClass::Hex);
        if h == w + 2 {
            Err((ParseErrorKind::NotANumber, w + 2))
        } else if h - (w + 2) > 16 {
            Err((ParseErrorKind::NumericOverflow, w + 2))
        } else if !(h + 2 < s.len() && s[h] == ' ' && s[h + 1] == '-' && s[h + 2] == ' ') {
            Err((ParseErrorKind::MalformedFrame, h))
        } else {
            match spec_symbol(s.subrange(h + 3, s.len() as int)) {
                Ok(f) => Ok(f),
                Err((k, off)) => Err((k, h + 3 + off)),
            }
        }
    }
}

/// The frame-header grammar over one line: optional leading
/// whitespace, then either the frame index directly, or one prefix
/// token, whitespace, and the frame index; the rest per
/// [`spec_header_from`]. The result is the canonical function path.
pub open spec fn spec_parse_header(s: Seq<char>) -> Result<Seq<char>, (ParseErrorKind, int)> {
    let i0 = class_end(s, 0, CharClass::Ws);
    if index_at(s, i0) {
        spec_header_from(s, class_end(s, i0, CharClass::Digit) + 1)
    } else {
        let t = class_end(s, i0, CharClass::NonWs);
        if t == i0 {
            Err((ParseErrorKind::MalformedFrame, i0))
        } else {
            let w = class_end(s, t, CharClass::Ws);
            if w == t {
                Err((ParseErrorKind::MalformedFrame, t))
            } else if index_at(s, w) {
                spec_header_from(s, class_end(s, w, CharClass::Digit) + 1)
            } else {
                Err((ParseErrorKind::MalformedFrame, w))
            }
        }
    }
}

/// A class run shifts with the text in front of it.
proof fn lemma_class_end_shift(x: Seq<char>, s: Seq<char>, i: int, k: CharClass)
    requires
        0 <= i <= s.len(),
    ensures
        class_end(x + s, x.len() + i, k) == x.len() + class_end(s, i, k),
{
    crate::chars::lemma_class_end(s, i, k);
    let e = class_end(s, i, k);
    assert(forall|m: int|
        x.len() + i <= m < x.len() + e ==> crate::chars::class_pred(k, #[trigger] (x + s)[m]));
    crate::chars::lemma_class_end_is(x + s, x.len() + i, k, x.len() + e);
}

/// The part of the header grammar after the index shifts with the
/// text in front of it: the same path on success, the same offence at
/// the shifted offset on failure.
proof fn lemma_header_from_shift(x: Seq<char>, s: Seq<char>, p: int)
    requires
        0 <= p <= s.len(),
    ensures
        match (spec_header_from(x + s, x.len() + p), spec_header_from(s, p)) {
            (Ok(f1), Ok(f2)) => f1 == f2,
            (Err((k1, o1)), Err((k2, o2))) => k1 == k2 && o1 == x.len() + o2,
            _ => false,
        },
{
    let t = x + s;
    lemma_class_end_shift(x, s, p, CharClass::Ws);
    crate::chars::lemma_class_end(s, p, CharClass::Ws);
    let w = class_end(s, p, CharClass::Ws);
    if w != p && w + 1 < s.len() && s[w] == '0' && s[w + 1] == 'x' {
        lemma_class_end_shift(x, s, w + 2, CharClass::Hex);
        crate::chars::lemma_class_end(s, w + 2, CharClass::Hex);
        let h = class_end(s, w + 2, CharClass::Hex);
        if h != w + 2 && h - (w + 2) <= 16 && h + 2 < s.len() && s[h] == ' ' && s[h + 1] == '-'
            && s[h + 2] == ' ' {
            assert(t.subrange(x.len() + h + 3, t.len() as int) =~= s.subrange(
                h + 3,
                s.len() as int,
            ));
        }
    }
}

/// The two header dialects agree: a line that carries a leading
/// prefix token, whitespace, and then a header whose index opens it,
/// parses to the very same canonical function path as the header
/// alone — and to the same offence, shifted by the prefix, when the
/// header is bad.
pub proof fn lemma_header_dialects_agree(p: Seq<char>, w: Seq<char>, s: Seq<char>)
    requires
        p.len() > 0,
        forall|j: int| 0 <= j < p.len() ==> is_nonws_char(#[trigger] p[j]),
        !is_digit_char(p[0]),
        w.len() > 0,
        forall|j: int| 0 <= j < w.len() ==> is_ws_char(#[trigger] w[j]),
        index_at(s, class_end(s, 0, CharClass::Ws)),
    ensures
        match (spec_parse_header(p + w + s), spec_parse_header(s)) {
            (Ok(f1), Ok(f2)) => f1 == f2,
            (Err((k1, o1)), Err((k2, o2))) => k1 == k2 && o1 == p.len() + w.len() + o2,
            _ => false,
        },
{
    let x = p + w;
    let t = x + s;
    assert(t =~= p + w + s);
    // the prefixed line starts with a non-whitespace, non-digit character
    assert(t[0] == p[0]);
    crate::chars::lemma_class_end_is(t, 0, CharClass::Ws, 0);
    crate::chars::lemma_class_end_is(t, 0, CharClass::Digit, 0);
    assert(!index_at(t, class_end(t, 0, CharClass::Ws)));
    // the prefix token runs to the whitespace
    assert(forall|m: int| 0 <= m < p.len() ==> crate::chars::class_pred(
        CharClass::NonWs,
        #[trigger] t[m],
    ));
    crate::chars::lemma_class_end_is(t, 0, CharClass::NonWs, p.len() as int);
    // the whitespace joins any leading whitespace of the bare header
    crate::chars::lemma_class_end(s, 0, CharClass::Ws);
    let i0 = class_end(s, 0, CharClass::Ws);
    assert(forall|m: int|
        p.len() <= m < x.len() + i0 ==> crate::chars::class_pred(CharClass::Ws, #[trigger] t[m]));
    crate::chars::lemma_class_end_is(t, p.len() as int, CharClass::Ws, x.len() + i0);
    // the index of the bare header is the index of the prefixed line
    lemma_class_end_shift(x, s, i0, CharClass::Digit);
    crate::chars::lemma_class_end(s, i0, CharClass::Digit);
    let d = class_end(s, i0, CharClass::Digit);
    assert(index_at(t, x.len() + i0));
    lemma_header_from_shift(x, s, d + 1);
}

/// Parse the part of a header line after the index's colon at `p`.
fn header_from(line: &[char], p: usize) -> (r: Result<String, (ParseErrorKind, usize)>)
    requires
        p <= line@.len(),
    ensures
        match r {
            Ok(f) => spec_header_from(line@, p as int) == Ok::<Seq<char>, (ParseErrorKind, int)>(
                f@,
            ),
            Err((k, at)) => spec_header_from(line@, p as int) == Err::<
                Seq<char>,
                (ParseErrorKind, int),
            >((k, at as int)) && at <= line@.len(),
        },
{
    let n = line.len();
    let w = class_run(line, p, CharClass::Ws);
    if w == p {
        return Err((ParseErrorKind::MalformedFrame, p));
    }
    if !(w < n && line[w] == '0' && w + 1 < n && line[w + 1] == 'x') {
        return Err((ParseErrorKind::MalformedFrame, w));
    }
    let h = class_run(line, w + 2, CharClass::Hex);
    if h == w + 2 {
        return Err((ParseErrorKind::NotANumber, w + 2));
    }
    if h - (w + 2) > 16 {
        return Err((ParseErrorKind::NumericOverflow, w + 2));
    }
    if !(h < n && n - h > 2 && line[h] == ' ' && line[h + 1] == '-' && line[h + 2] == ' ') {
        return Err((ParseErrorKind::MalformedFrame, h));
    }
    let sym = slice_subrange(line, h + 3, n);
    match parse_symbol(sym) {
        Ok(f) => Ok(f),
        Err((k, off)) => Err((k, h + 3 + off)),
    }
}

/// Parse one line against the frame-header grammar, giving the
/// canonical function path or the first offence.
pub fn parse_header_chars(line: &[char]) -> (r: Result<String, (ParseErrorKind, usize)>)
    ensures
        match r {
            Ok(f) => spec_parse_header(line@) == Ok::<Seq<char>, (ParseErrorKind, int)>(f@),
            Err((k, at)) => spec_parse_header(line@) == Err::<Seq<char>, (ParseErrorKind, int)>(
                (k, at as int),
            ) && at <= line@.len(),
        },
{
    let n = line.len();
    let i0 = class_run(line, 0, CharClass::Ws);
    let d0 = class_run(line, i0, CharClass::Digit);
    if d0 > i0 && d0 < n && line[d0] == ':' {
        return header_from(line, d0 + 1);
    }
    let t = class_run(line, i0, CharClass::NonWs);
    if t == i0 {
        return Err((ParseErrorKind::MalformedFrame, i0));
    }
    let w = class_run(line, t, CharClass::Ws);
    if w == t {
        return Err((ParseErrorKind::MalformedFrame, t));
    }
    let d1 = class_run(line, w, CharClass::Digit);
    if d1 > w && d1 < n && line[d1] == ':' {
        return header_from(line, d1 + 1);
    }
    Err((ParseErrorKind::MalformedFrame, w))
}

/// End of the line that starts at `i`.
pub open spec fn line_end(s: Seq<char>, i: int) -> int {
    class_end(s, i, CharClass::Line)
}

/// The position after `e`, capped at the end of `s`.
pub open spec fn cap_next(s: Seq<char>, e: int) -> int {
    if e + 1 > s.len() {
        s.len() as int
    } else {
        e + 1
    }
}

/// The block grammar from position `i`, a line start: empty lines are
/// skipped; each further line must be a frame header, whose entry
/// takes the following line's location when that line matches the
/// location grammar; the first failing header aborts the whole block
/// with its kind, its offset into the block, and its line.
pub open spec fn spec_assemble(s: Seq<char>, i: int) -> Result<Seq<EntryView>, ParseErrorView>
    decreases s.len() - i,
    when i >= 0
    via spec_assemble_decreases
{
    if i >= s.len() {
        Ok(Seq::empty())
    } else {
        let e = line_end(s, i);
        let line = s.subrange(i, e);
        if e == i {
            spec_assemble(s, i + 1)
        } else {
            match spec_parse_header(line) {
                Err((k, off)) => Err(ParseErrorView { kind: k, offset: i + off, line }),
                Ok(func) => {
                    let loc = if e < s.len() {
                        spec_parse_location(s.subrange(e + 1, line_end(s, e + 1)))
                    } else {
                        None
                    };
                    match loc {
                        Some(l) => match spec_assemble(s, cap_next(s, line_end(s, e + 1))) {
                            Ok(tail) => Ok(
                                seq![EntryView { function: func, location: Some(l) }] + tail,
                            ),
                            Err(er) => Err(er),
                        },
                        None => match spec_assemble(s, cap_next(s, e)) {
                            Ok(tail) => Ok(
                                seq![EntryView { function: func, location: None }] + tail,
                            ),
                            Err(er) => Err(er),
                        },
                    }
                },
            }
        }
    }
}

#[via_fn]
proof fn spec_assemble_decreases(s: Seq<char>, i: int) {
    if 0 <= i < s.len() {
        crate::chars::lemma_class_end(s, i, CharClass::Line);
        let e = line_end(s, i);
        if e < s.len() {
            crate::chars::lemma_class_end(s, e + 1, CharClass::Line);
        }
    }
}

/// The block grammar over a whole text block.
pub open spec fn spec_parse(s: Seq<char>) -> Result<Seq<EntryView>, ParseErrorView> {
    spec_assemble(s, 0)
}

/// The given entries in front of a partial parse.
pub open spec fn prepend_entries(
    acc: Seq<EntryView>,
    r: Result<Seq<EntryView>, ParseErrorView>,
) -> Result<Seq<EntryView>, ParseErrorView> {
    match r {
        Ok(tail) => Ok(acc + tail),
        Err(e) => Err(e),
    }
}

/// Parse one backtrace block into its ordered frames. The block is
/// accepted exactly when every nonempty line parses — as a frame
/// header or, right after one, as a location; the first failing header
/// yields the offence and no entries at all.
pub fn parse(text: &str) -> (r: Result<Backtrace, ParseError>)
    ensures
        match r {
            Ok(bt) => spec_parse(text@) == Ok::<Seq<EntryView>, ParseErrorView>(bt@),
            Err(e) => spec_parse(text@) == Err::<Seq<EntryView>, ParseErrorView>(e@),
        },
{
    let v = str_to_chars(text);
    let n = v.len();
    let mut entries: Vec<Entry> = Vec::new();
    let mut i: usize = 0;
    while i < n
        invariant
            i <= n,
            n == v@.len(),
            v@ == text@,
            spec_parse(text@) == prepend_entries(
                entries_view(entries@),
                spec_assemble(v@, i as int),
            ),
        decreases n - i,
    {
        let e = class_run(v.as_slice(), i, CharClass::Line);
        if e == i {
            i = i + 1;
        } else {
            let line = slice_subrange(v.as_slice(), i, e);
            match parse_header_chars(line) {
                Err((k, off)) => {
                    let err = ParseError {
                        kind: k,
                        offset: i + off,
                        line: chars_to_string(v.as_slice(), i, e),
                    };
                    proof {
                        assert(spec_assemble(v@, i as int) == Err::<Seq<EntryView>, ParseErrorView>(
                            err@,
                        ));
                    }
                    return Err(err);
                },
                Ok(func) => {
                    let ghost acc0 = entries_view(entries@);
                    let mut next: usize = if e < n {
                        e + 1
                    } else {
                        n
                    };
                    let mut loc: Option<Location> = None;
                    if e < n {
                        let e2 = class_run(v.as_slice(), e + 1, CharClass::Line);
                        let line2 = slice_subrange(v.as_slice(), e + 1, e2);
                        loc = parse_location_chars(line2);
                        if loc.is_some() {
                            next = if e2 >= n {
                                n
                            } else {
                                e2 + 1
                            };
                        }
                    }
                    let entry = Entry::new(func, loc);
                    let ghost ev = entry@;
                    entries.push(entry);
                    proof {
                        assert(entries_view(entries@) =~= acc0.push(ev));
                        assert(forall|tail: Seq<EntryView>|
                            acc0 + (seq![ev] + tail) =~= #[trigger] (acc0.push(ev) + tail));
                    }
                    i = next;
                },
            }
        }
    }
    proof {
        assert(entries_view(entries@) + Seq::<EntryView>::empty() =~= entries_view(entries@));
    }
    Ok(Backtrace::with_entries(entries))
}

/// Parse one line against the location grammar: the `at ` marker,
/// a path up to the first following colon, then 1-based line and
/// column numbers closing the line. A line that does not match gives
/// no location; it is not an error.
pub fn parse_location(line: &str) -> (r: Option<Location>)
    ensures
        loc_opt_view(r) == spec_parse_location(line@),
{
    let v = str_to_chars(line);
    parse_location_chars(v.as_slice())
}

} // verus!
