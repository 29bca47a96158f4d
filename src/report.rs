//! The plain-text report of unlinked similar pairs.

use vstd::prelude::*;
use crate::text::{chars_of, last_index_exec, last_index_of, push_char, push_str, string_of_range};

verus! {

/// The character of a decimal digit.
pub open spec fn digit_char(d: nat) -> char {
    if d == 0 { '0' } else if d == 1 { '1' } else if d == 2 { '2' } else if d == 3 { '3' }
    else if d == 4 { '4' } else if d == 5 { '5' } else if d == 6 { '6' } else if d == 7 { '7' }
    else if d == 8 { '8' } else { '9' }
}

/// The decimal notation of a number, without leading zeros.
pub open spec fn decimal(n: nat) -> Seq<char>
    decreases n,
{
    if n < 10 {
        seq![digit_char(n)]
    } else {
        decimal(n / 10).push(digit_char(n % 10))
    }
}

fn digit_char_exec(d: u64) -> (c: char)
    requires
        d < 10,
    ensures
        c == digit_char(d as nat),
{
    if d == 0 { '0' } else if d == 1 { '1' } else if d == 2 { '2' } else if d == 3 { '3' }
    else if d == 4 { '4' } else if d == 5 { '5' } else if d == 6 { '6' } else if d == 7 { '7' }
    else if d == 8 { '8' } else { '9' }
}

/// Appends the decimal notation of `n`.
pub fn push_decimal(s: &mut String, n: u64)
    ensures
        final(s)@ == old(s)@ + decimal(n as nat),
    decreases n,
{
    if n < 10 {
        push_char(s, digit_char_exec(n));
    } else {
        push_decimal(s, n / 10);
        push_char(s, digit_char_exec(n % 10));
    }
}

/// The title of a note path: its last segment, without the extension that
/// follows the segment's last dot (a leading dot starts no extension).
pub open spec fn title_of(path: Seq<char>) -> Seq<char> {
    let name = path.subrange(last_index_of(path, '/', path.len() as int) + 1, path.len() as int);
    let dot = last_index_of(name, '.', name.len() as int);
    if dot > 0 {
        name.subrange(0, dot)
    } else {
        name
    }
}

/// The title of a note path.
pub fn note_title(path: &str) -> (r: String)
    ensures
        r@ == title_of(path@),
{
    let cs = chars_of(path);
    let start = match last_index_exec(&cs, '/') {
        Some(k) => k + 1,
        None => 0,
    };
    let name_chars = string_of_range(&cs, start, cs.len());
    let name = chars_of(name_chars.as_str());
    match last_index_exec(&name, '.') {
        Some(dot) => if dot > 0 {
            string_of_range(&name, 0, dot)
        } else {
            name_chars
        },
        None => name_chars,
    }
}

/// How a pair is shown in the report: by titles, or by full paths when the
/// two titles are the same.
pub open spec fn report_line_text(path_a: Seq<char>, path_b: Seq<char>, percent: nat) -> Seq<char> {
    let (a, b) = if title_of(path_a) == title_of(path_b) {
        (path_a, path_b)
    } else {
        (title_of(path_a), title_of(path_b))
    };
    "- [["@ + a + "]] <-> [["@ + b + "]] ("@ + decimal(percent) + "%)\n"@
}

/// One line of the report: `- [[A]] <-> [[B]] (NN%)`, where NN is the
/// similarity in percent.
pub fn report_line(path_a: &str, path_b: &str, percent: u8) -> (r: String)
    ensures
        r@ == report_line_text(path_a@, path_b@, percent as nat),
{
    let title_a = note_title(path_a);
    let title_b = note_title(path_b);
    let mut r = String::new();
    push_str(&mut r, "- [[");
    if title_a == title_b {
        push_str(&mut r, path_a);
        push_str(&mut r, "]] <-> [[");
        push_str(&mut r, path_b);
    } else {
        push_str(&mut r, title_a.as_str());
        push_str(&mut r, "]] <-> [[");
        push_str(&mut r, title_b.as_str());
    }
    push_str(&mut r, "]] (");
    push_decimal(&mut r, percent as u64);
    push_str(&mut r, "%)\n");
    proof {
        reveal_strlit("- [[");
        reveal_strlit("]] <-> [[");
        reveal_strlit("]] (");
        reveal_strlit("%)\n");
    }
    r
}

/// The report's heading: how many pairs were found above which threshold.
pub open spec fn report_header_text(count: nat, threshold: nat) -> Seq<char> {
    "# Unlinked but similar note pairs\n\nFound "@ + decimal(count) + " unlinked similar note pairs (similarity > "@
        + decimal(threshold) + "%)\n\n"@
}

/// The report's heading.
pub fn report_header(count: u64, threshold: u8) -> (r: String)
    ensures
        r@ == report_header_text(count as nat, threshold as nat),
{
    let mut r = String::new();
    push_str(&mut r, "# Unlinked but similar note pairs\n\nFound ");
    push_decimal(&mut r, count);
    push_str(&mut r, " unlinked similar note pairs (similarity > ");
    push_decimal(&mut r, threshold as u64);
    push_str(&mut r, "%)\n\n");
    proof {
        reveal_strlit("# Unlinked but similar note pairs\n\nFound ");
        reveal_strlit(" unlinked similar note pairs (similarity > ");
        reveal_strlit("%)\n\n");
    }
    r
}

} // verus!
