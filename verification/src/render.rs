//! Console rendering of backtraces.
//!
//! Each entry renders as its function path and, when present, its
//! `path:line:column` location, every part wrapped in ANSI color
//! codes; a backtrace renders its entries one per line between fixed
//! banner lines.

use vstd::prelude::*;
use vstd::string::StringExecFns;

use crate::types::Backtrace;
use crate::types::Entry;
use crate::types::EntryView;

verus! {

/// One decimal digit as its character.
pub open spec fn digit_char(d: nat) -> char {
    if d == 0 {
        '0'
    } else if d == 1 {
        '1'
    } else if d == 2 {
        '2'
    } else if d == 3 {
        '3'
    } else if d == 4 {
        '4'
    } else if d == 5 {
        '5'
    } else if d == 6 {
        '6'
    } else if d == 7 {
        '7'
    } else if d == 8 {
        '8'
    } else {
        '9'
    }
}

/// Decimal rendering of `n`, most significant digit first, with no
/// leading zero but for `n == 0` itself.
pub open spec fn dec_digits(n: nat) -> Seq<char>
    decreases n,
{
    if n < 10 {
        seq![digit_char(n)]
    } else {
        dec_digits(n / 10).push(digit_char(n % 10))
    }
}

/// Append the character of the digit `d`.
fn push_digit(out: &mut String, d: u32)
    requires
        d < 10,
    ensures
        final (out)@ == old(out)@.push(digit_char(d as nat)),
{
    let c: char = if d == 0 {
        '0'
    } else if d == 1 {
        '1'
    } else if d == 2 {
        '2'
    } else if d == 3 {
        '3'
    } else if d == 4 {
        '4'
    } else if d == 5 {
        '5'
    } else if d == 6 {
        '6'
    } else if d == 7 {
        '7'
    } else if d == 8 {
        '8'
    } else {
        '9'
    };
    out.push(c);
}

/// Append the decimal rendering of `n`.
pub fn push_dec_u32(out: &mut String, n: u32)
    ensures
        final (out)@ == old(out)@ + dec_digits(n as nat),
    decreases n,
{
    if n < 10 {
        push_digit(out, n);
        proof {
            assert(old(out)@ + dec_digits(n as nat) =~= old(out)@.push(digit_char(n as nat)));
        }
    } else {
        push_dec_u32(out, n / 10);
        push_digit(out, n % 10);
        proof {
            assert(old(out)@ + dec_digits(n as nat) =~= (old(out)@ + dec_digits(
                (n / 10) as nat,
            )).push(digit_char((n % 10) as nat)));
        }
    }
}

/// `s` wrapped in ANSI escapes that select the given 256-color
/// foreground and background and then reset them.
pub open spec fn spec_color(fg: u8, bg: u8, s: Seq<char>) -> Seq<char> {
    "\u{1b}[38;5;"@ + dec_digits(fg as nat) + "m\u{1b}[48;5;"@ + dec_digits(bg as nat) + "m"@ + s
        + "\u{1b}[0m"@
}

/// Wrap `string` in ANSI color codes for the console.
pub fn color(fg: u8, bg: u8, string: &str) -> (r: String)
    ensures
        r@ == spec_color(fg, bg, string@),
{
    let mut out = String::from_str("\u{1b}[38;5;");
    push_dec_u32(&mut out, fg as u32);
    out.append("m\u{1b}[48;5;");
    push_dec_u32(&mut out, bg as u32);
    out.append("m");
    out.append(string);
    out.append("\u{1b}[0m");
    proof {
        assert(out@ =~= spec_color(fg, bg, string@));
    }
    out
}

/// The console rendering of one entry: the colored function path and,
/// when a location is present, the colored `path:line:column`.
pub open spec fn spec_render_entry(e: EntryView) -> Seq<char> {
    match e.location {
        None => spec_color(4, 0, e.function),
        Some(l) => spec_color(4, 0, e.function) + " "@ + spec_color(2, 0, l.path) + ":"@
            + spec_color(3, 0, dec_digits(l.line as nat)) + ":"@ + spec_color(
            3,
            0,
            dec_digits(l.column as nat),
        ),
    }
}

impl Entry {
    /// Render this entry for the console.
    pub fn render(&self) -> (r: String)
        ensures
            r@ == spec_render_entry(self@),
    {
        let mut out = color(4, 0, self.function.as_str());
        match &self.location {
            None => {},
            Some(l) => {
                out.append(" ");
                let path_part = color(2, 0, l.path.as_str());
                out.append(path_part.as_str());
                out.append(":");
                let mut line_digits = String::new();
                push_dec_u32(&mut line_digits, l.line);
                let line_part = color(3, 0, line_digits.as_str());
                out.append(line_part.as_str());
                out.append(":");
                let mut column_digits = String::new();
                push_dec_u32(&mut column_digits, l.column);
                let column_part = color(3, 0, column_digits.as_str());
                out.append(column_part.as_str());
            },
        }
        proof {
            assert(out@ =~= spec_render_entry(self@));
        }
        out
    }
}

/// The rendered entries, one line each, in order.
pub open spec fn spec_render_entries(s: Seq<EntryView>) -> Seq<char>
    decreases s.len(),
{
    if s.len() == 0 {
        Seq::empty()
    } else {
        spec_render_entries(s.drop_last()) + spec_render_entry(s.last()) + "\n"@
    }
}

/// The console rendering of a backtrace: a start banner, the entries
/// one per line, and an end banner.
pub open spec fn spec_render_backtrace(s: Seq<EntryView>) -> Seq<char> {
    spec_color(1, 0, "\n--- BACKTRACE START ---\n"@) + spec_render_entries(s) + spec_color(
        1,
        0,
        "--- BACKTRACE END ------\n"@,
    )
}

impl Backtrace {
    /// Render this backtrace for the console.
    pub fn render(&self) -> (r: String)
        ensures
            r@ == spec_render_backtrace(self@),
    {
        let mut out = color(1, 0, "\n--- BACKTRACE START ---\n");
        let n = self.0.len();
        let mut i: usize = 0;
        let ghost sv = self@;
        while i < n
            invariant
                i <= n == self.0@.len(),
                sv == self@,
                out@ == spec_color(1, 0, "\n--- BACKTRACE START ---\n"@) + spec_render_entries(
                    sv.take(i as int),
                ),
            decreases n - i,
        {
            let part = self.0[i].render();
            out.append(part.as_str());
            out.append("\n");
            proof {
                assert(sv.take(i + 1).drop_last() =~= sv.take(i as int));
                assert(sv.take(i + 1).last() == sv[i as int]);
                assert(out@ =~= spec_color(1, 0, "\n--- BACKTRACE START ---\n"@)
                    + spec_render_entries(sv.take(i + 1)));
            }
            i = i + 1;
        }
        out.append(color(1, 0, "--- BACKTRACE END ------\n").as_str());
        proof {
            assert(sv.take(n as int) =~= sv);
            assert(out@ =~= spec_render_backtrace(self@));
        }
        out
    }
}

} // verus!
