//! Parsing of wikilink references: `[[target]]` and `[[target|alias]]`.

use vstd::prelude::*;
use crate::text::{chars_of, string_of_range, views};

verus! {

/// Length of the run of characters starting at `i` that contains no `]`
/// and, when `stop_at_bar` holds, no `|`.
pub open spec fn run_len(s: Seq<char>, i: int, stop_at_bar: bool) -> nat
    decreases s.len() - i,
{
    if i < 0 || i >= s.len() || s[i] == ']' || (stop_at_bar && s[i] == '|') {
        0
    } else {
        1 + run_len(s, i + 1, stop_at_bar)
    }
}

/// The reference that starts at position `p`, if one does: the end of its
/// target and the end of the whole `[[...]]`. The target is a non-empty run
/// without `]` or `|`; an alias, when present, is a non-empty run without
/// `]` after a `|`; both are closed by `]]`.
pub open spec fn link_at(s: Seq<char>, p: int) -> Option<(int, int)> {
    if 0 <= p && p + 1 < s.len() && s[p] == '[' && s[p + 1] == '[' {
        let t = p + 2 + run_len(s, p + 2, true);
        if t == p + 2 {
            None
        } else if t + 1 < s.len() && s[t] == ']' && s[t + 1] == ']' {
            Some((t, t + 2))
        } else if t < s.len() && s[t] == '|' {
            let a = t + 1 + run_len(s, t + 1, false);
            if a > t + 1 && a + 1 < s.len() && s[a] == ']' && s[a + 1] == ']' {
                Some((t, a + 2))
            } else {
                None
            }
        } else {
            None
        }
    } else {
        None
    }
}

/// The targets of the references found scanning from position `i`: at each
/// position a reference is taken if one starts there, and the scan resumes
/// after it; otherwise the scan moves on by one character.
pub open spec fn links_from(s: Seq<char>, i: int) -> Seq<Seq<char>>
    decreases s.len() - i,
{
    if i < 0 || i >= s.len() {
        Seq::empty()
    } else {
        match link_at(s, i) {
            Some((t, e)) => seq![s.subrange(i + 2, t)] + links_from(s, e),
            None => links_from(s, i + 1),
        }
    }
}

/// Every reference target of a text, verbatim and in order of appearance.
pub open spec fn wikilinks(s: Seq<char>) -> Seq<Seq<char>> {
    links_from(s, 0)
}

/// End of the run that `run_len` measures.
fn run_end(cs: &Vec<char>, start: usize, stop_at_bar: bool) -> (j: usize)
    requires
        start <= cs.len(),
    ensures
        j == start + run_len(cs@, start as int, stop_at_bar),
        j <= cs.len(),
{
    let mut j: usize = start;
    while j < cs.len() && cs[j] != ']' && !(stop_at_bar && cs[j] == '|')
        invariant
            start <= j <= cs.len(),
            start + run_len(cs@, start as int, stop_at_bar) == j + run_len(
                cs@,
                j as int,
                stop_at_bar,
            ),
        decreases cs.len() - j,
    {
        j += 1;
    }
    j
}

/// The reference starting at `p`, as `link_at` describes it.
fn link_at_exec(cs: &Vec<char>, p: usize) -> (r: Option<(usize, usize)>)
    requires
        p < cs.len(),
    ensures
        match r {
            Some((t, e)) => link_at(cs@, p as int) == Some((t as int, e as int)) && e <= cs.len(),
            None => link_at(cs@, p as int) is None,
        },
{
    let n = cs.len();
    if !(p + 1 < n && cs[p] == '[' && cs[p + 1] == '[') {
        return None;
    }
    let t = run_end(cs, p + 2, true);
    if t == p + 2 {
        None
    } else if t < n && n - t > 1 && cs[t] == ']' && cs[t + 1] == ']' {
        Some((t, t + 2))
    } else if t < n && cs[t] == '|' {
        let a = run_end(cs, t + 1, false);
        if a > t + 1 && a < n && n - a > 1 && cs[a] == ']' && cs[a + 1] == ']' {
            Some((t, a + 2))
        } else {
            None
        }
    } else {
        None
    }
}

/// Extracts every `[[target]]` or `[[target|alias]]` reference of a text and
/// returns the targets verbatim, in order, duplicates kept.
pub fn parse_wikilinks(content: &str) -> (links: Vec<String>)
    ensures
        views(links@) == wikilinks(content@),
{
    let cs = chars_of(content);
    let n = cs.len();
    let mut links: Vec<String> = Vec::new();
    let mut i: usize = 0;
    while i < n
        invariant
            n == cs.len(),
            cs@ == content@,
            i <= n,
            views(links@) + links_from(cs@, i as int) == wikilinks(cs@),
        decreases n - i,
    {
        match link_at_exec(&cs, i) {
            Some((t, e)) => {
                let target = string_of_range(&cs, i + 2, t);
                proof {
                    assert(views(links@.push(target)) == views(links@).push(target@));
                    assert(seq![cs@.subrange(i + 2, t as int)] + links_from(cs@, e as int)
                        == links_from(cs@, i as int));
                    vstd::seq_lib::lemma_concat_associative(
                        views(links@),
                        seq![target@],
                        links_from(cs@, e as int),
                    );
                }
                links.push(target);
                i = e;
            },
            None => {
                i += 1;
            },
        }
    }
    proof {
        assert(links_from(cs@, n as int) == Seq::<Seq<char>>::empty());
        assert(views(links@) + Seq::<Seq<char>>::empty() == views(links@));
    }
    links
}

} // verus!
