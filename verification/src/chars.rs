//! Character classes and runs over sequences of characters.
//!
//! The backtrace grammar is stated over `Seq<char>`; these definitions
//! name the character sets the grammar uses, give a functional account
//! of maximal runs of one class, and evaluate runs of decimal digits.

use vstd::prelude::*;
use vstd::string::StrSliceExecFns;

verus! {

/// Decimal digit.
pub open spec fn is_digit_char(c: char) -> bool {
    '0' <= c && c <= '9'
}

/// Hexadecimal digit, either case.
pub open spec fn is_hex_char(c: char) -> bool {
    is_digit_char(c) || ('a' <= c && c <= 'f') || ('A' <= c && c <= 'F')
}

/// Horizontal whitespace inside a line.
pub open spec fn is_ws_char(c: char) -> bool {
    c == ' ' || c == '\t'
}

/// A character a prefix token may carry: anything but whitespace or a
/// line break.
pub open spec fn is_nonws_char(c: char) -> bool {
    !is_ws_char(c) && c != '\n'
}

/// Characters of a bare symbol segment: identifier characters plus the
/// decoration characters of closure and impl syntax.
pub open spec fn is_leaf_char(c: char) -> bool {
    ('a' <= c && c <= 'z') || ('A' <= c && c <= 'Z') || is_digit_char(c) || c == '_' || c == '{'
        || c == '}' || c == ' ' || c == '&' || c == ','
}

/// Characters permitted inside a bracketed group: a group additionally
/// carries `::`-qualified paths verbatim.
pub open spec fn is_inner_char(c: char) -> bool {
    is_leaf_char(c) || c == ':'
}

/// The character classes whose maximal runs the grammar measures.
#[derive(Clone, Copy)]
pub enum CharClass {
    /// Horizontal whitespace.
    Ws,
    /// Anything but whitespace or a line break.
    NonWs,
    /// Decimal digits.
    Digit,
    /// Hexadecimal digits.
    Hex,
    /// Anything but a line break.
    Line,
}

/// Membership of `c` in class `k`.
pub open spec fn class_pred(k: CharClass, c: char) -> bool {
    match k {
        CharClass::Ws => is_ws_char(c),
        CharClass::NonWs => is_nonws_char(c),
        CharClass::Digit => is_digit_char(c),
        CharClass::Hex => is_hex_char(c),
        CharClass::Line => c != '\n',
    }
}

/// End of the maximal run of class `k` starting at `i`: the first
/// position at or after `i` whose character leaves the class, or the
/// length of `s`.
pub open spec fn class_end(s: Seq<char>, i: int, k: CharClass) -> int
    decreases s.len() - i,
{
    if i < 0 || i >= s.len() {
        i
    } else if class_pred(k, s[i]) {
        class_end(s, i + 1, k)
    } else {
        i
    }
}

/// What `class_end` returns: positions in the run are of the class and
/// the run is maximal.
pub proof fn lemma_class_end(s: Seq<char>, i: int, k: CharClass)
    requires
        0 <= i <= s.len(),
    ensures
        i <= class_end(s, i, k) <= s.len(),
        forall|j: int| i <= j < class_end(s, i, k) ==> class_pred(k, #[trigger] s[j]),
        class_end(s, i, k) < s.len() ==> !class_pred(k, s[class_end(s, i, k)]),
    decreases s.len() - i,
{
    if i < s.len() && class_pred(k, s[i]) {
        lemma_class_end(s, i + 1, k);
    }
}

/// A position with the properties of `class_end` is `class_end`.
pub proof fn lemma_class_end_is(s: Seq<char>, i: int, k: CharClass, j: int)
    requires
        0 <= i <= j <= s.len(),
        forall|m: int| i <= m < j ==> class_pred(k, #[trigger] s[m]),
        j < s.len() ==> !class_pred(k, s[j]),
    ensures
        class_end(s, i, k) == j,
    decreases s.len() - i,
{
    if i < s.len() && class_pred(k, s[i]) {
        lemma_class_end_is(s, i + 1, k, j);
    }
}

/// Decide membership of `c` in class `k`.
pub fn exec_class_pred(k: CharClass, c: char) -> (r: bool)
    ensures
        r == class_pred(k, c),
{
    match k {
        CharClass::Ws => c == ' ' || c == '\t',
        CharClass::NonWs => !(c == ' ' || c == '\t') && c != '\n',
        CharClass::Digit => '0' <= c && c <= '9',
        CharClass::Hex => ('0' <= c && c <= '9') || ('a' <= c && c <= 'f') || ('A' <= c && c
            <= 'F'),
        CharClass::Line => c != '\n',
    }
}

/// Walk to the end of the maximal run of class `k` starting at `i`.
pub fn class_run(s: &[char], i: usize, k: CharClass) -> (r: usize)
    requires
        i <= s@.len(),
    ensures
        r == class_end(s@, i as int, k),
        i <= r <= s@.len(),
{
    let n = s.len();
    let mut j = i;
    while j < n && exec_class_pred(k, s[j])
        invariant
            i <= j <= n,
            n == s@.len(),
            forall|m: int| i <= m < j ==> class_pred(k, #[trigger] s@[m]),
        decreases n - j,
    {
        j = j + 1;
    }
    proof {
        lemma_class_end_is(s@, i as int, k, j as int);
    }
    j
}

/// Numeric value of a digit character.
pub open spec fn digit_val(c: char) -> nat {
    (c as nat - '0' as nat) as nat
}

/// Every character of `s` is a decimal digit.
pub open spec fn all_digits(s: Seq<char>) -> bool {
    forall|j: int| 0 <= j < s.len() ==> is_digit_char(#[trigger] s[j])
}

/// Value of a run of decimal digits, most significant first.
pub open spec fn digits_val(s: Seq<char>) -> nat
    decreases s.len(),
{
    if s.len() == 0 {
        0
    } else {
        digits_val(s.drop_last()) * 10 + digit_val(s.last())
    }
}

/// A longer run of digits never has a smaller value.
pub proof fn lemma_digits_val_mono(s: Seq<char>, j: int)
    requires
        0 <= j <= s.len(),
    ensures
        digits_val(s.take(j)) <= digits_val(s),
    decreases s.len() - j,
{
    if j < s.len() {
        assert(s.take(j + 1).drop_last() =~= s.take(j));
        assert(digits_val(s.take(j + 1)) == digits_val(s.take(j)) * 10 + digit_val(
            s.take(j + 1).last(),
        ));
        lemma_digits_val_mono(s, j + 1);
    } else {
        assert(s.take(j) =~= s);
    }
}

/// Read `s[from..to]` as a base-10 number. The digits' value is
/// returned exactly when the range is a nonempty run of digits whose
/// value fits in 32 bits; a stray character, an empty range and an
/// overflowing value all yield nothing.
pub fn parse_u32(s: &[char], from: usize, to: usize) -> (r: Option<u32>)
    requires
        from <= to <= s@.len(),
    ensures
        ({
            let sub = s@.subrange(from as int, to as int);
            if sub.len() > 0 && all_digits(sub) && digits_val(sub) <= u32::MAX {
                r == Some(digits_val(sub) as u32)
            } else {
                r is None
            }
        }),
{
    let ghost sub = s@.subrange(from as int, to as int);
    if from == to {
        return None;
    }
    let mut v: u64 = 0;
    let mut j = from;
    while j < to
        invariant
            from <= j <= to <= s@.len(),
            sub == s@.subrange(from as int, to as int),
            v == digits_val(sub.take(j - from)),
            v <= u32::MAX,
            forall|m: int| from <= m < j ==> is_digit_char(#[trigger] s@[m]),
        decreases to - j,
    {
        let c = s[j];
        if !('0' <= c && c <= '9') {
            assert(!is_digit_char(sub[j - from]));
            return None;
        }
        let d = (c as u32) - ('0' as u32);
        proof {
            assert(sub.take(j - from + 1).drop_last() =~= sub.take(j - from));
            assert(sub.take(j - from + 1).last() == s@[j as int]);
        }
        let w = v * 10 + (d as u64);
        if w > (u32::MAX as u64) {
            proof {
                assert(digits_val(sub.take(j - from + 1)) > u32::MAX);
                lemma_digits_val_mono(sub, j - from + 1);
            }
            return None;
        }
        v = w;
        j = j + 1;
    }
    proof {
        assert(sub.take(to - from) =~= sub);
    }
    Some(v as u32)
}

/// The characters of `s`, in order, as a vector.
pub fn str_to_chars(s: &str) -> (r: Vec<char>)
    ensures
        r@ == s@,
{
    let n = s.unicode_len();
    let mut v: Vec<char> = Vec::new();
    let mut i: usize = 0;
    while i < n
        invariant
            i <= n,
            n == s@.len(),
            v@ == s@.take(i as int),
        decreases n - i,
    {
        v.push(s.get_char(i));
        proof {
            assert(s@.take(i + 1 as int) == s@.take(i as int).push(s@[i as int]));
        }
        i = i + 1;
    }
    proof {
        assert(s@.take(n as int) == s@);
    }
    v
}

/// The characters `s[from..to]`, in order, as a string.
pub fn chars_to_string(s: &[char], from: usize, to: usize) -> (r: String)
    requires
        from <= to <= s@.len(),
    ensures
        r@ == s@.subrange(from as int, to as int),
{
    let mut out = String::new();
    let mut j = from;
    while j < to
        invariant
            from <= j <= to <= s@.len(),
            out@ == s@.subrange(from as int, j as int),
        decreases to - j,
    {
        out.push(s[j]);
        proof {
            assert(s@.subrange(from as int, j + 1 as int) == s@.subrange(
                from as int,
                j as int,
            ).push(s@[j as int]));
        }
        j = j + 1;
    }
    out
}

} // verus!
