//! The symbol grammar: canonicalization of a frame's function text.
//!
//! The text after a frame's ` - ` separator is a sequence of segments
//! joined by `::`; a segment is made of bare identifier-like runs and
//! of bracketed groups `<`…`>` whose inside may nest further groups
//! and carry `::`-qualified paths verbatim. The canonical function
//! path reproduces the text as written, except that the last top-level
//! segment (the compiler-generated hash) is dropped when more than one
//! segment is present. Unbalanced brackets, a disallowed character, or
//! nesting beyond [`MAX_NESTING`] fail the parse with the offset of
//! the offending character.

use vstd::prelude::*;

use crate::chars::chars_to_string;
use crate::chars::is_inner_char;
use crate::chars::is_leaf_char;
use crate::types::ParseErrorKind;

verus! {

/// Most deeply nested bracketed groups a symbol may carry; a guard
/// against unbounded recursion on adversarial input.
pub const MAX_NESTING: usize = 64;

/// One step short of the whole scan: from position `i`, with `depth`
/// open brackets, `seg_start` true when a new top-level segment must
/// begin here, and `cut` the last top-level `::` seen so far, scan the
/// rest of `s`. The result is the final `cut`, or the kind and offset
/// of the first offence.
pub open spec fn sym_scan(
    s: Seq<char>,
    i: int,
    depth: int,
    seg_start: bool,
    cut: Option<int>,
) -> Result<Option<int>, (ParseErrorKind, int)>
    decreases s.len() - i,
{
    if i < 0 || i >= s.len() {
        if depth != 0 || seg_start {
            Err((ParseErrorKind::UnbalancedSymbol, s.len() as int))
        } else {
            Ok(cut)
        }
    } else {
        let c = s[i];
        if depth == 0 {
            if c == '<' {
                sym_scan(s, i + 1, 1, false, cut)
            } else if c == ':' {
                if !seg_start && i + 1 < s.len() && s[i + 1] == ':' {
                    sym_scan(s, i + 2, 0, true, Some(i))
                } else {
                    Err((ParseErrorKind::UnbalancedSymbol, i))
                }
            } else if is_leaf_char(c) {
                sym_scan(s, i + 1, 0, false, cut)
            } else {
                Err((ParseErrorKind::UnbalancedSymbol, i))
            }
        } else {
            if c == '<' {
                if depth >= MAX_NESTING {
                    Err((ParseErrorKind::MaxNestingExceeded, i))
                } else {
                    sym_scan(s, i + 1, depth + 1, false, cut)
                }
            } else if c == '>' {
                sym_scan(s, i + 1, depth - 1, false, cut)
            } else if is_inner_char(c) {
                sym_scan(s, i + 1, depth, false, cut)
            } else {
                Err((ParseErrorKind::UnbalancedSymbol, i))
            }
        }
    }
}

/// The canonical function path of symbol text `s`: the text up to its
/// last top-level `::` when it has more than one segment, the whole
/// text when it has one, or the first offence.
pub open spec fn spec_symbol(s: Seq<char>) -> Result<Seq<char>, (ParseErrorKind, int)> {
    match sym_scan(s, 0, 0, true, None) {
        Ok(cut) => match cut {
            Some(k) => Ok(s.take(k)),
            None => Ok(s),
        },
        Err(e) => Err(e),
    }
}

/// A scan that ends well ends well on a longer text too, continuing
/// from the end of the shorter one with no open group, no pending
/// segment, and the cut it had found.
proof fn lemma_sym_scan_append(
    s1: Seq<char>,
    s2: Seq<char>,
    i: int,
    depth: int,
    seg_start: bool,
    cut: Option<int>,
    c: Option<int>,
)
    requires
        0 <= i <= s1.len(),
        sym_scan(s1, i, depth, seg_start, cut) == Ok::<Option<int>, (ParseErrorKind, int)>(c),
    ensures
        sym_scan(s1 + s2, i, depth, seg_start, cut) == sym_scan(
            s1 + s2,
            s1.len() as int,
            0,
            false,
            c,
        ),
    decreases s1.len() - i,
{
    if i < s1.len() {
        let ch = s1[i];
        if depth == 0 {
            if ch == '<' {
                lemma_sym_scan_append(s1, s2, i + 1, 1, false, cut, c);
            } else if ch == ':' {
                if !seg_start && i + 1 < s1.len() && s1[i + 1] == ':' {
                    lemma_sym_scan_append(s1, s2, i + 2, 0, true, Some(i), c);
                }
            } else if is_leaf_char(ch) {
                lemma_sym_scan_append(s1, s2, i + 1, 0, false, cut, c);
            }
        } else {
            if ch == '<' {
                if depth < MAX_NESTING {
                    lemma_sym_scan_append(s1, s2, i + 1, depth + 1, false, cut, c);
                }
            } else if ch == '>' {
                lemma_sym_scan_append(s1, s2, i + 1, depth - 1, false, cut, c);
            } else if is_inner_char(ch) {
                lemma_sym_scan_append(s1, s2, i + 1, depth, false, cut, c);
            }
        }
    }
}

/// A run of bare-segment characters scans through to the end, keeping
/// the cut it was given.
proof fn lemma_sym_scan_leaf_run(s: Seq<char>, i: int, seg_start: bool, cut: Option<int>)
    requires
        0 <= i <= s.len(),
        i < s.len() || !seg_start,
        forall|j: int| i <= j < s.len() ==> is_leaf_char(#[trigger] s[j]),
    ensures
        sym_scan(s, i, 0, seg_start, cut) == Ok::<Option<int>, (ParseErrorKind, int)>(cut),
    decreases s.len() - i,
{
    if i < s.len() {
        lemma_sym_scan_leaf_run(s, i + 1, false, cut);
    }
}

/// Every cut a well-ended scan reports lies inside the text.
proof fn lemma_sym_scan_cut_bound(
    s: Seq<char>,
    i: int,
    depth: int,
    seg_start: bool,
    cut: Option<int>,
    k: int,
)
    requires
        0 <= i <= s.len(),
        match cut {
            Some(k0) => 0 <= k0 < s.len(),
            None => true,
        },
        sym_scan(s, i, depth, seg_start, cut) == Ok::<Option<int>, (ParseErrorKind, int)>(
            Some(k),
        ),
    ensures
        0 <= k < s.len(),
    decreases s.len() - i,
{
    if i < s.len() {
        let ch = s[i];
        if depth == 0 {
            if ch == '<' {
                lemma_sym_scan_cut_bound(s, i + 1, 1, false, cut, k);
            } else if ch == ':' {
                if !seg_start && i + 1 < s.len() && s[i + 1] == ':' {
                    lemma_sym_scan_cut_bound(s, i + 2, 0, true, Some(i), k);
                }
            } else if is_leaf_char(ch) {
                lemma_sym_scan_cut_bound(s, i + 1, 0, false, cut, k);
            }
        } else {
            if ch == '<' {
                if depth < MAX_NESTING {
                    lemma_sym_scan_cut_bound(s, i + 1, depth + 1, false, cut, k);
                }
            } else if ch == '>' {
                lemma_sym_scan_cut_bound(s, i + 1, depth - 1, false, cut, k);
            } else if is_inner_char(ch) {
                lemma_sym_scan_cut_bound(s, i + 1, depth, false, cut, k);
            }
        }
    }
}

/// Appending `::` and one more bare segment to a well-formed symbol
/// makes that segment the trailing hash: canonicalization returns
/// exactly the original text, the new segment dropped.
pub proof fn lemma_symbol_strips_last_segment(a: Seq<char>, b: Seq<char>)
    requires
        spec_symbol(a) is Ok,
        b.len() > 0,
        forall|j: int| 0 <= j < b.len() ==> is_leaf_char(#[trigger] b[j]),
    ensures
        spec_symbol(a + "::"@ + b) == Ok::<Seq<char>, (ParseErrorKind, int)>(a),
{
    reveal_strlit("::");
    let sep = "::"@;
    let x = a + sep;
    let t = x + b;
    let c = sym_scan(a, 0, 0, true, None)->Ok_0;
    assert(t =~= a + (sep + b));
    lemma_sym_scan_append(a, sep + b, 0, 0, true, None, c);
    assert(t[a.len() as int] == ':' && t[a.len() as int + 1] == ':');
    assert(sym_scan(t, a.len() as int, 0, false, c) == sym_scan(
        t,
        a.len() as int + 2,
        0,
        true,
        Some(a.len() as int),
    ));
    assert(forall|j: int| a.len() as int + 2 <= j < t.len() ==> is_leaf_char(#[trigger] t[j]));
    lemma_sym_scan_leaf_run(t, a.len() as int + 2, true, Some(a.len() as int));
    assert(t.take(a.len() as int) =~= a);
}

/// A single bare segment carries no hash: it is its own canonical
/// path, nothing is stripped.
pub proof fn lemma_symbol_single_segment(s: Seq<char>)
    requires
        s.len() > 0,
        forall|j: int| 0 <= j < s.len() ==> is_leaf_char(#[trigger] s[j]),
    ensures
        spec_symbol(s) == Ok::<Seq<char>, (ParseErrorKind, int)>(s),
{
    lemma_sym_scan_leaf_run(s, 0, true, None);
}

/// Opening brackets minus closing brackets among the first `i`
/// characters of `s`.
pub open spec fn bracket_depth(s: Seq<char>, i: int) -> int
    decreases i,
{
    if i <= 0 {
        0
    } else {
        bracket_depth(s, i - 1) + (if s[i - 1] == '<' {
            1int
        } else if s[i - 1] == '>' {
            -1int
        } else {
            0int
        })
    }
}

/// Two texts that agree up to `m` open and close brackets alike there.
proof fn lemma_bracket_depth_prefix(s: Seq<char>, f: Seq<char>, m: int)
    requires
        0 <= m,
        forall|j: int| 0 <= j < m ==> f[j] == s[j],
    ensures
        bracket_depth(f, m) == bracket_depth(s, m),
    decreases m,
{
    if m > 0 {
        lemma_bracket_depth_prefix(s, f, m - 1);
    }
}

/// The scan's depth counter is the bracket depth of the text behind
/// it; a scan that ends well therefore ends with balanced brackets,
/// never sees more groups closed than opened, and records cuts only
/// at depth zero.
proof fn lemma_sym_scan_balance(
    s: Seq<char>,
    i: int,
    depth: int,
    seg_start: bool,
    cut: Option<int>,
    r: Option<int>,
)
    requires
        0 <= i <= s.len(),
        depth == bracket_depth(s, i),
        forall|m: int| 0 <= m <= i ==> #[trigger] bracket_depth(s, m) >= 0,
        match cut {
            Some(k0) => 0 <= k0 <= s.len() && bracket_depth(s, k0) == 0,
            None => true,
        },
        sym_scan(s, i, depth, seg_start, cut) == Ok::<Option<int>, (ParseErrorKind, int)>(r),
    ensures
        forall|m: int| 0 <= m <= s.len() ==> #[trigger] bracket_depth(s, m) >= 0,
        bracket_depth(s, s.len() as int) == 0,
        match r {
            Some(k) => 0 <= k <= s.len() && bracket_depth(s, k) == 0,
            None => true,
        },
    decreases s.len() - i,
{
    if i >= s.len() {
        assert forall|m: int| 0 <= m <= s.len() implies #[trigger] bracket_depth(s, m) >= 0 by {}
    } else {
        let ch = s[i];
        assert(bracket_depth(s, i + 1) == depth + (if ch == '<' {
            1int
        } else if ch == '>' {
            -1int
        } else {
            0int
        }));
        if depth == 0 {
            if ch == '<' {
                lemma_sym_scan_balance(s, i + 1, 1, false, cut, r);
            } else if ch == ':' {
                if !seg_start && i + 1 < s.len() && s[i + 1] == ':' {
                    assert(bracket_depth(s, i + 2) == 0);
                    lemma_sym_scan_balance(s, i + 2, 0, true, Some(i), r);
                }
            } else if is_leaf_char(ch) {
                lemma_sym_scan_balance(s, i + 1, 0, false, cut, r);
            }
        } else {
            if ch == '<' {
                if depth < MAX_NESTING {
                    lemma_sym_scan_balance(s, i + 1, depth + 1, false, cut, r);
                }
            } else if ch == '>' {
                lemma_sym_scan_balance(s, i + 1, depth - 1, false, cut, r);
            } else if is_inner_char(ch) {
                lemma_sym_scan_balance(s, i + 1, depth, false, cut, r);
            }
        }
    }
}

/// The canonical path keeps brackets balanced: no prefix of it closes
/// more groups than it opens, and as a whole it closes every group it
/// opens.
pub proof fn lemma_symbol_balance_preserved(s: Seq<char>, f: Seq<char>)
    requires
        spec_symbol(s) == Ok::<Seq<char>, (ParseErrorKind, int)>(f),
    ensures
        forall|m: int| 0 <= m <= f.len() ==> #[trigger] bracket_depth(f, m) >= 0,
        bracket_depth(f, f.len() as int) == 0,
{
    let r = sym_scan(s, 0, 0, true, None)->Ok_0;
    lemma_sym_scan_balance(s, 0, 0, true, None, r);
    lemma_symbol_prefix(s, f);
    assert forall|m: int| 0 <= m <= f.len() implies #[trigger] bracket_depth(f, m) >= 0 by {
        lemma_bracket_depth_prefix(s, f, m);
    }
    lemma_bracket_depth_prefix(s, f, f.len() as int);
    match r {
        Some(k) => {
            assert(f.len() == k);
        },
        None => {
            assert(f.len() == s.len());
        },
    }
}

/// The canonical path reproduces the symbol text from its start:
/// outer segments keep their order and their brackets as written.
pub proof fn lemma_symbol_prefix(s: Seq<char>, f: Seq<char>)
    requires
        spec_symbol(s) == Ok::<Seq<char>, (ParseErrorKind, int)>(f),
    ensures
        f.len() <= s.len(),
        f == s.take(f.len() as int),
{
    match sym_scan(s, 0, 0, true, None) {
        Ok(cut) => match cut {
            Some(k) => {
                lemma_sym_scan_cut_bound(s, 0, 0, true, None, k);
            },
            None => {
                assert(s.take(s.len() as int) =~= s);
            },
        },
        Err(_) => {
            assert(false);
        },
    }
}

/// Scan the symbol text `s`, returning the position of its last
/// top-level `::` if any.
fn scan_symbol(s: &[char]) -> (r: Result<Option<usize>, (ParseErrorKind, usize)>)
    ensures
        match r {
            Ok(cut) => {
                &&& sym_scan(s@, 0, 0, true, None) == Ok::<Option<int>, (ParseErrorKind, int)>(
                    match cut {
                        Some(k) => Some(k as int),
                        None => None,
                    },
                )
                &&& cut matches Some(k) ==> k < s@.len()
            },
            Err((kind, at)) => {
                &&& sym_scan(s@, 0, 0, true, None) == Err::<Option<int>, (ParseErrorKind, int)>(
                    (kind, at as int),
                )
                &&& at <= s@.len()
            },
        },
{
    let n = s.len();
    let mut i: usize = 0;
    let mut depth: usize = 0;
    let mut seg_start: bool = true;
    let mut cut: Option<usize> = None;
    while i < n
        invariant
            n == s@.len(),
            i <= n,
            depth <= MAX_NESTING,
            cut matches Some(k) ==> k < i,
            sym_scan(s@, 0, 0, true, None) == sym_scan(
                s@,
                i as int,
                depth as int,
                seg_start,
                match cut {
                    Some(k) => Some(k as int),
                    None => None,
                },
            ),
        decreases n - i,
    {
        let c = s[i];
        if depth == 0 {
            if c == '<' {
                depth = 1;
                seg_start = false;
                i = i + 1;
            } else if c == ':' {
                if !seg_start && i + 1 < n && s[i + 1] == ':' {
                    cut = Some(i);
                    seg_start = true;
                    i = i + 2;
                } else {
                    return Err((ParseErrorKind::UnbalancedSymbol, i));
                }
            } else if exec_is_leaf_char(c) {
                seg_start = false;
                i = i + 1;
            } else {
                return Err((ParseErrorKind::UnbalancedSymbol, i));
            }
        } else {
            if c == '<' {
                if depth >= MAX_NESTING {
                    return Err((ParseErrorKind::MaxNestingExceeded, i));
                }
                depth = depth + 1;
                seg_start = false;
                i = i + 1;
            } else if c == '>' {
                depth = depth - 1;
                seg_start = false;
                i = i + 1;
            } else if exec_is_inner_char(c) {
                seg_start = false;
                i = i + 1;
            } else {
                return Err((ParseErrorKind::UnbalancedSymbol, i));
            }
        }
    }
    if depth != 0 || seg_start {
        Err((ParseErrorKind::UnbalancedSymbol, n))
    } else {
        Ok(cut)
    }
}

/// Decide [`is_leaf_char`].
fn exec_is_leaf_char(c: char) -> (r: bool)
    ensures
        r == is_leaf_char(c),
{
    ('a' <= c && c <= 'z') || ('A' <= c && c <= 'Z') || ('0' <= c && c <= '9') || c == '_'
        || c == '{' || c == '}' || c == ' ' || c == '&' || c == ','
}

/// Decide [`is_inner_char`].
fn exec_is_inner_char(c: char) -> (r: bool)
    ensures
        r == is_inner_char(c),
{
    exec_is_leaf_char(c) || c == ':'
}

/// Canonicalize the symbol text `s`: reproduce it up to its last
/// top-level `::` (the whole text when it has a single segment), or
/// report the first offence with its offset into `s`.
pub fn parse_symbol(s: &[char]) -> (r: Result<String, (ParseErrorKind, usize)>)
    ensures
        match r {
            Ok(f) => spec_symbol(s@) == Ok::<Seq<char>, (ParseErrorKind, int)>(f@),
            Err((kind, at)) => {
                &&& spec_symbol(s@) == Err::<Seq<char>, (ParseErrorKind, int)>((kind, at as int))
                &&& at <= s@.len()
            },
        },
{
    match scan_symbol(s) {
        Err(e) => Err(e),
        Ok(cut) => {
            let end: usize = match cut {
                Some(k) => k,
                None => s.len(),
            };
            let out = chars_to_string(s, 0, end);
            proof {
                assert(s@.subrange(0, end as int) =~= s@.take(end as int));
                assert(s@.take(s@.len() as int) =~= s@);
            }
            Ok(out)
        },
    }
}

} // verus!
